//! Fixed-layout records that carry engine results across the C boundary:
//! metadata and candidate records with NUL-terminated UTF-8 text fields,
//! RAID records with numeric codes, and the status codes of each error.
use vstd::prelude::*;
use vstd::utf8::encode_utf8;
use crate::apfs::{ApfsContainerSuperblock, ApfsDeletedCandidate};
use crate::ext::{ExtDeletedCandidate, ExtFilesystemKind, ExtSuperblock};
use crate::fat::{FatBootSector, FatDeletedEntry, FatFilesystemKind};
use crate::hfs::{HfsDeletedCandidate, HfsVolumeHeader};
use crate::ntfs::{checked_product, NtfsBootSector};
use crate::refs::{RefsBootSector, RefsDeletedCandidate};
use crate::ufs::{UfsDeletedCandidate, UfsSuperblock};
use crate::fat::ScanError as FatScanError;
use crate::raid::{
    identity_disk_order, identity_order, ParityRotation, RaidError, RaidLayout, RaidLayoutView, RaidLevel,
    RaidLogicalMapping, RaidManualOverride, RaidManualOverrideView, RaidMetadataFamily,
};
use crate::session::{QuickScanError, QuickScanSummary};
use crate::types::{ConfidenceTier, RecoverySourceKind};
use crate::usn::UsnParseError;
use crate::scoring::{final_score, score_candidate_with_reasons, score_reasons, tier_of};
use crate::session::{text_of, CandidateView, QuickScanCandidate};
use crate::text::{
    hex_min, hex_min_chars, zero_pad, zero_padded,
    ascii_lower, ascii_lowercase, ascii_upper, ascii_upper_of, chars_equal, chars_of, decimal, decimal_chars,
    push_chars, push_str, string_from_chars, str_lt, chars_lt, lemma_str_lt_order, trim_dot_chars, trim_dots, trim_whitespace, trim_ws, is_ws, is_dot, lemma_trim_with_keeps,
};
use crate::types::{EvidenceSource, RecoveryCandidate};
use crate::carving::{
    carve_family_flag_for_extension, default_extension, extension_family, extension_of, family_flag, pack_formats,
    signature_pack_formats, strings_view, CarvedCandidate, FileFormat, SIGNATURE_PACK_NAME, SIGNATURE_PACK_VERSION,
};

verus! {

// ---------------------------------------------------------------------------
// Records
// ---------------------------------------------------------------------------

/// NTFS boot sector fields.
#[derive(Debug, Clone, Copy, PartialEq, Eq, Structural)]
pub struct FrNtfsBootMetadata {
    pub bytes_per_sector: u16,
    pub sectors_per_cluster: u8,
    pub _reserved0: u8,
    pub cluster_size_bytes: u32,
    pub file_record_size_bytes: u32,
    pub index_record_size_bytes: u32,
    pub mft_cluster: u64,
    pub mft_offset_bytes: u64,
    pub volume_size_bytes: u64,
    pub volume_serial: u64,
}

/// FAT32/exFAT boot sector fields.
#[derive(Debug, Clone, Copy, PartialEq, Eq, Structural)]
pub struct FrFatBootMetadata {
    pub filesystem_kind: u32,
    pub bytes_per_sector: u16,
    pub sectors_per_cluster: u8,
    pub fat_count: u8,
    pub cluster_size_bytes: u32,
    pub total_sectors: u64,
    pub root_dir_first_cluster: u32,
    pub _reserved0: u32,
    pub fat_offset_bytes: u64,
    pub data_region_offset_bytes: u64,
    pub volume_serial: u32,
    pub _reserved1: u32,
}

/// ReFS boot sector fields.
#[derive(Debug, Clone, Copy, PartialEq, Eq, Structural)]
pub struct FrRefsBootMetadata {
    pub bytes_per_sector: u16,
    pub sectors_per_cluster: u8,
    pub _reserved0: u8,
    pub cluster_size_bytes: u32,
    pub total_sectors: u64,
    pub volume_size_bytes: u64,
    pub volume_serial: u64,
}

/// A deleted ReFS entry.
#[derive(Debug, Clone, Copy)]
pub struct FrRefsDeletedCandidate {
    pub flags: u32,
    pub object_id: u64,
    pub size_bytes: u64,
    pub name: [u8; 128],
    pub reconstructed_path: [u8; 256],
}

/// ext superblock fields.
#[derive(Debug, Clone, Copy, PartialEq, Eq, Structural)]
pub struct FrExtSuperblockMetadata {
    pub filesystem_kind: u32,
    pub block_size_bytes: u32,
    pub inode_size_bytes: u16,
    pub _reserved0: u16,
    pub inodes_per_group: u32,
    pub total_inodes: u32,
    pub total_blocks: u64,
}

/// A deleted ext entry.
#[derive(Debug, Clone, Copy)]
pub struct FrExtDeletedCandidate {
    pub flags: u32,
    pub inode_number: u64,
    pub entry_offset_bytes: u64,
    pub size_bytes: u64,
    pub name: [u8; 128],
    pub reconstructed_path: [u8; 256],
}

/// APFS container superblock fields.
#[derive(Debug, Clone, Copy, PartialEq, Eq, Structural)]
pub struct FrApfsContainerMetadata {
    pub block_size_bytes: u32,
    pub _reserved0: u32,
    pub block_count: u64,
    pub features: u64,
    pub incompat_features: u64,
    pub container_object_id: u64,
}

/// A deleted APFS entry.
#[derive(Debug, Clone, Copy)]
pub struct FrApfsDeletedCandidate {
    pub flags: u32,
    pub _reserved0: u32,
    pub cnid: u64,
    pub size_bytes: u64,
    pub name: [u8; 128],
    pub reconstructed_path: [u8; 256],
}

/// HFS+ volume header fields.
#[derive(Debug, Clone, Copy, PartialEq, Eq, Structural)]
pub struct FrHfsVolumeMetadata {
    pub signature: u16,
    pub version: u16,
    pub block_size_bytes: u32,
    pub total_blocks: u32,
    pub file_count: u32,
    pub folder_count: u32,
}

/// A deleted HFS+ entry.
#[derive(Debug, Clone, Copy)]
pub struct FrHfsDeletedCandidate {
    pub flags: u32,
    pub cnid: u32,
    pub size_bytes: u64,
    pub name: [u8; 128],
    pub reconstructed_path: [u8; 256],
}

/// XFS superblock fields.
#[derive(Debug, Clone, Copy, PartialEq, Eq, Structural)]
pub struct FrXfsSuperblockMetadata {
    pub block_size_bytes: u32,
    pub inode_size_bytes: u16,
    pub _reserved0: u16,
    pub ag_count: u32,
    pub data_blocks: u64,
}

/// A deleted XFS entry.
#[derive(Debug, Clone, Copy)]
pub struct FrXfsDeletedCandidate {
    pub flags: u32,
    pub inode_number: u64,
    pub size_bytes: u64,
    pub name: [u8; 128],
    pub reconstructed_path: [u8; 256],
}

/// UFS superblock fields.
#[derive(Debug, Clone, Copy, PartialEq, Eq, Structural)]
pub struct FrUfsSuperblockMetadata {
    pub magic: u32,
    pub block_size_bytes: u32,
    pub fragment_size_bytes: u32,
    pub _reserved0: u32,
    pub total_blocks: u64,
}

/// A deleted UFS entry.
#[derive(Debug, Clone, Copy)]
pub struct FrUfsDeletedCandidate {
    pub flags: u32,
    pub inode_number: u32,
    pub _reserved0: u32,
    pub size_bytes: u64,
    pub name: [u8; 128],
    pub reconstructed_path: [u8; 256],
}

/// Totals of an NTFS quick scan.
#[derive(Debug, Clone, Copy, PartialEq, Eq, Structural)]
pub struct FrNtfsQuickScanSummary {
    pub parsed_records: u32,
    pub parse_failures: u32,
    pub resident_attribute_count: u32,
    pub non_resident_attribute_count: u32,
    pub deleted_records: u32,
    pub directory_records: u32,
    pub named_records: u32,
    pub records_with_non_resident_data: u32,
    pub usn_enriched_records: u32,
    pub usn_ghost_records: u32,
}

/// One NTFS quick-scan candidate with flags, confidence and text fields.
#[derive(Debug, Clone, Copy)]
pub struct FrNtfsQuickScanCandidate {
    pub record_number: u32,
    pub flags: u32,
    pub parent_record_number: u64,
    pub confidence_tier: u32,
    pub _reserved0: u32,
    pub data_size_bytes: u64,
    pub allocated_size_bytes: u64,
    pub file_attributes: u32,
    pub _reserved1: u32,
    pub created_filetime_utc: u64,
    pub modified_filetime_utc: u64,
    pub mft_modified_filetime_utc: u64,
    pub accessed_filetime_utc: u64,
    pub name: [u8; 128],
    pub reconstructed_path: [u8; 256],
    pub confidence_reason: [u8; 256],
}

/// A deleted FAT32/exFAT entry.
#[derive(Debug, Clone, Copy)]
pub struct FrFatDeletedCandidate {
    pub flags: u32,
    pub start_cluster: u32,
    pub size_bytes: u64,
    pub name: [u8; 128],
    pub reconstructed_path: [u8; 256],
}

/// A RAID layout with numeric codes and at most 32 members in order.
#[derive(Debug, Clone, Copy)]
pub struct FrRaidLayout {
    pub metadata_family: u32,
    pub level: u32,
    pub member_count: u32,
    pub stripe_size_bytes: u32,
    pub data_offset_bytes: u64,
    pub parity_rotation: u32,
    pub confidence_score: u8,
    pub _reserved0: [u8; 3],
    pub disk_order_count: u32,
    pub disk_order: [u32; 32],
}

/// A manual RAID override; `flags` says which fields are set.
#[derive(Debug, Clone, Copy)]
pub struct FrRaidManualOverride {
    pub flags: u32,
    pub level: u32,
    pub stripe_size_bytes: u32,
    pub data_offset_bytes: u64,
    pub parity_rotation: u32,
    pub disk_order_count: u32,
    pub disk_order: [u32; 32],
}

/// Where a logical RAID offset lives.
#[derive(Debug, Clone, Copy, PartialEq, Eq, Structural)]
pub struct FrRaidLogicalMapping {
    pub member_index: u32,
    pub member_offset_bytes: u64,
    pub has_parity_member: u32,
    pub parity_member_index: u32,
}

/// A carved file candidate.
#[derive(Debug, Clone, Copy)]
pub struct FrCarveCandidate {
    pub offset_bytes: u64,
    pub length_bytes: u64,
    pub flags: u32,
    pub confidence_tier: u32,
    pub format: [u8; 16],
    pub suggested_name: [u8; 128],
    pub confidence_reason: [u8; 256],
}

/// The carving signature pack's name, version and formats.
#[derive(Debug, Clone, Copy)]
pub struct FrCarveSignaturePackMetadata {
    pub pack_name: [u8; 64],
    pub pack_version: [u8; 32],
    pub format_count: u32,
    pub family_flags: u32,
    pub formats_csv: [u8; 512],
}

/// A volume shadow copy.
#[derive(Debug, Clone, Copy)]
pub struct FrVssSnapshot {
    pub snapshot_id: [u8; 96],
    pub volume_name: [u8; 260],
    pub device_object: [u8; 260],
    pub install_time_utc: [u8; 64],
    pub snapshot_path: [u8; 260],
}

pub const CANDIDATE_FLAG_IN_USE: u32 = 0x0001;
pub const CANDIDATE_FLAG_DELETED: u32 = 0x0002;
pub const CANDIDATE_FLAG_DIRECTORY: u32 = 0x0004;
pub const CANDIDATE_FLAG_NON_RESIDENT_DATA: u32 = 0x0008;
pub const CANDIDATE_FLAG_HAS_NAME: u32 = 0x0010;
pub const CANDIDATE_FLAG_HAS_PATH: u32 = 0x0020;
pub const CANDIDATE_FLAG_HAS_NAMED_DATA_STREAM: u32 = 0x0040;
pub const CANDIDATE_FLAG_COMPRESSED: u32 = 0x0080;
pub const CANDIDATE_FLAG_SPARSE: u32 = 0x0100;
pub const CANDIDATE_FLAG_ENCRYPTED: u32 = 0x0200;
pub const CANDIDATE_FLAG_EVIDENCE_MFT: u32 = 0x1000;
pub const CANDIDATE_FLAG_EVIDENCE_DIRECTORY_INDEX: u32 = 0x2000;
pub const CANDIDATE_FLAG_EVIDENCE_USN: u32 = 0x4000;
pub const CANDIDATE_FLAG_EVIDENCE_VSS: u32 = 0x8000;
pub const CANDIDATE_FLAG_EVIDENCE_CARVE: u32 = 0x0001_0000;
pub const CANDIDATE_FLAG_HAS_FILE_METADATA: u32 = 0x0002_0000;
pub const CANDIDATE_FLAG_GHOST_RECORD: u32 = 0x0004_0000;
/// The deleted flag of every filesystem's candidate record.
pub const DELETED_CANDIDATE_FLAG_DELETED: u32 = 0x0001;
/// The directory flag of every filesystem's candidate record.
pub const DELETED_CANDIDATE_FLAG_DIRECTORY: u32 = 0x0002;
pub const FAT_FILESYSTEM_KIND_FAT32: u32 = 1;
pub const FAT_FILESYSTEM_KIND_EXFAT: u32 = 2;

// ---------------------------------------------------------------------------
// Text fields
// ---------------------------------------------------------------------------

/// A field of `n` bytes holding `bytes` cut to `n - 1` bytes, then NUL, then
/// zero padding.
pub open spec fn c_field(bytes: Seq<u8>, n: nat) -> Seq<u8> {
    let k = if bytes.len() < n - 1 {
        bytes.len() as int
    } else {
        n - 1
    };
    Seq::new(n, |i: int| if i < k { bytes[i] } else { 0u8 })
}

/// A text field always ends in NUL; text shorter than the field reads back
/// whole, followed by a NUL.
pub proof fn law_c_field_reads_back(bytes: Seq<u8>, n: nat)
    requires
        n > 0,
    ensures
        c_field(bytes, n).len() == n,
        c_field(bytes, n)[n - 1] == 0,
        bytes.len() < n ==> c_field(bytes, n).take(bytes.len() as int) == bytes && c_field(bytes, n)[bytes.len() as int]
            == 0,
{
    if bytes.len() < n {
        assert(c_field(bytes, n).take(bytes.len() as int) =~= bytes);
    }
}

/// The UTF-8 bytes of `value` in a zeroed field of `N` bytes, cut to leave
/// room for the terminating NUL (a cut may fall inside a character).
pub fn utf8_field<const N: usize>(value: &str) -> (field: [u8; N])
    requires
        N > 0,
    ensures
        field@ == c_field(encode_utf8(value@), N as nat),
{
    let bytes = value.as_bytes();
    let mut field = [0u8; N];
    let copy_len = if bytes.len() < N - 1 {
        bytes.len()
    } else {
        N - 1
    };
    let mut i: usize = 0;
    while i < N
        invariant
            field@.len() == N,
            i <= N,
            copy_len <= bytes@.len(),
            copy_len <= N - 1,
            bytes@ == encode_utf8(value@),
            copy_len == (if bytes@.len() < N - 1 { bytes@.len() as int } else { N - 1 }),
            forall|m: int| 0 <= m < i ==> field@[m] == (if m < copy_len { bytes@[m] } else { 0u8 }),
        decreases N - i,
    {
        if i < copy_len {
            field[i] = bytes[i];
        } else {
            field[i] = 0;
        }
        i = i + 1;
    }
    assert(field@ =~= c_field(encode_utf8(value@), N as nat));
    field
}

// ---------------------------------------------------------------------------
// Metadata records
// ---------------------------------------------------------------------------

/// The NTFS boot record; offsets that overflow read as 0.
pub fn encode_ntfs_boot_metadata(boot: &NtfsBootSector) -> (m: FrNtfsBootMetadata)
    ensures
        m == (FrNtfsBootMetadata {
            bytes_per_sector: boot.bytes_per_sector,
            sectors_per_cluster: boot.sectors_per_cluster,
            _reserved0: 0,
            cluster_size_bytes: (boot.bytes_per_sector * boot.sectors_per_cluster) as u32,
            file_record_size_bytes: boot.file_record_size_bytes,
            index_record_size_bytes: boot.index_record_size_bytes,
            mft_cluster: boot.mft_cluster,
            mft_offset_bytes: match checked_product(
                boot.mft_cluster as int,
                boot.bytes_per_sector * boot.sectors_per_cluster,
            ) {
                Some(v) => v,
                None => 0,
            },
            volume_size_bytes: match checked_product(boot.total_sectors as int, boot.bytes_per_sector as int) {
                Some(v) => v,
                None => 0,
            },
            volume_serial: boot.volume_serial,
        }),
{
    FrNtfsBootMetadata {
        bytes_per_sector: boot.bytes_per_sector,
        sectors_per_cluster: boot.sectors_per_cluster,
        _reserved0: 0,
        cluster_size_bytes: boot.cluster_size_bytes(),
        file_record_size_bytes: boot.file_record_size_bytes,
        index_record_size_bytes: boot.index_record_size_bytes,
        mft_cluster: boot.mft_cluster,
        mft_offset_bytes: match boot.mft_offset_bytes() {
            Some(v) => v,
            None => 0,
        },
        volume_size_bytes: match boot.volume_size_bytes() {
            Some(v) => v,
            None => 0,
        },
        volume_serial: boot.volume_serial,
    }
}

/// The code of a FAT flavour: 1 for FAT32, 2 for exFAT.
pub fn encode_fat_filesystem_kind(filesystem: FatFilesystemKind) -> (c: u32)
    ensures
        c == match filesystem {
            FatFilesystemKind::Fat32 => FAT_FILESYSTEM_KIND_FAT32,
            FatFilesystemKind::ExFat => FAT_FILESYSTEM_KIND_EXFAT,
        },
{
    match filesystem {
        FatFilesystemKind::Fat32 => FAT_FILESYSTEM_KIND_FAT32,
        FatFilesystemKind::ExFat => FAT_FILESYSTEM_KIND_EXFAT,
    }
}

/// The FAT boot record; offsets that overflow read as 0.
pub fn encode_fat_boot_metadata(boot: &FatBootSector) -> (m: FrFatBootMetadata)
    ensures
        m == (FrFatBootMetadata {
            filesystem_kind: match boot.filesystem {
                FatFilesystemKind::Fat32 => FAT_FILESYSTEM_KIND_FAT32,
                FatFilesystemKind::ExFat => FAT_FILESYSTEM_KIND_EXFAT,
            },
            bytes_per_sector: boot.bytes_per_sector,
            sectors_per_cluster: boot.sectors_per_cluster,
            fat_count: boot.fat_count,
            cluster_size_bytes: (boot.bytes_per_sector * boot.sectors_per_cluster) as u32,
            total_sectors: boot.total_sectors,
            root_dir_first_cluster: boot.root_dir_first_cluster,
            _reserved0: 0,
            fat_offset_bytes: match checked_product(boot.fat_offset_sectors as int, boot.bytes_per_sector as int) {
                Some(v) => v,
                None => 0,
            },
            data_region_offset_bytes: match checked_product(
                boot.data_region_offset_sectors as int,
                boot.bytes_per_sector as int,
            ) {
                Some(v) => v,
                None => 0,
            },
            volume_serial: boot.volume_serial,
            _reserved1: 0,
        }),
{
    FrFatBootMetadata {
        filesystem_kind: encode_fat_filesystem_kind(boot.filesystem),
        bytes_per_sector: boot.bytes_per_sector,
        sectors_per_cluster: boot.sectors_per_cluster,
        fat_count: boot.fat_count,
        cluster_size_bytes: boot.cluster_size_bytes(),
        total_sectors: boot.total_sectors,
        root_dir_first_cluster: boot.root_dir_first_cluster,
        _reserved0: 0,
        fat_offset_bytes: match boot.fat_offset_bytes() {
            Some(v) => v,
            None => 0,
        },
        data_region_offset_bytes: match boot.data_region_offset_bytes() {
            Some(v) => v,
            None => 0,
        },
        volume_serial: boot.volume_serial,
        _reserved1: 0,
    }
}

/// The ReFS boot record; a volume size that overflows reads as 0.
pub fn encode_refs_boot_metadata(boot: &RefsBootSector) -> (m: FrRefsBootMetadata)
    ensures
        m == (FrRefsBootMetadata {
            bytes_per_sector: boot.bytes_per_sector,
            sectors_per_cluster: boot.sectors_per_cluster,
            _reserved0: 0,
            cluster_size_bytes: (boot.bytes_per_sector * boot.sectors_per_cluster) as u32,
            total_sectors: boot.total_sectors,
            volume_size_bytes: if boot.total_sectors * boot.bytes_per_sector <= u64::MAX {
                (boot.total_sectors * boot.bytes_per_sector) as u64
            } else {
                0
            },
            volume_serial: boot.volume_serial,
        }),
{
    FrRefsBootMetadata {
        bytes_per_sector: boot.bytes_per_sector,
        sectors_per_cluster: boot.sectors_per_cluster,
        _reserved0: 0,
        cluster_size_bytes: boot.cluster_size_bytes(),
        total_sectors: boot.total_sectors,
        volume_size_bytes: match boot.volume_size_bytes() {
            Some(v) => v,
            None => 0,
        },
        volume_serial: boot.volume_serial,
    }
}

/// The ext superblock record.
pub fn encode_ext_superblock_metadata(sb: &ExtSuperblock) -> (m: FrExtSuperblockMetadata)
    ensures
        m == (FrExtSuperblockMetadata {
            filesystem_kind: match sb.filesystem_kind {
                ExtFilesystemKind::Ext2 => 1u32,
                ExtFilesystemKind::Ext3 => 2u32,
                ExtFilesystemKind::Ext4 => 3u32,
            },
            block_size_bytes: sb.block_size_bytes,
            inode_size_bytes: sb.inode_size_bytes,
            _reserved0: 0,
            inodes_per_group: sb.inodes_per_group,
            total_inodes: sb.inodes_count,
            total_blocks: sb.blocks_count,
        }),
{
    FrExtSuperblockMetadata {
        filesystem_kind: sb.filesystem_kind.as_code(),
        block_size_bytes: sb.block_size_bytes,
        inode_size_bytes: sb.inode_size_bytes,
        _reserved0: 0,
        inodes_per_group: sb.inodes_per_group,
        total_inodes: sb.inodes_count,
        total_blocks: sb.blocks_count,
    }
}

/// The APFS container record.
pub fn encode_apfs_container_metadata(c: &ApfsContainerSuperblock) -> (m: FrApfsContainerMetadata)
    ensures
        m == (FrApfsContainerMetadata {
            block_size_bytes: c.block_size_bytes,
            _reserved0: 0,
            block_count: c.block_count,
            features: c.features,
            incompat_features: c.incompat_features,
            container_object_id: c.container_object_id,
        }),
{
    FrApfsContainerMetadata {
        block_size_bytes: c.block_size_bytes,
        _reserved0: 0,
        block_count: c.block_count,
        features: c.features,
        incompat_features: c.incompat_features,
        container_object_id: c.container_object_id,
    }
}

/// The HFS+ volume record.
pub fn encode_hfs_volume_metadata(v: &HfsVolumeHeader) -> (m: FrHfsVolumeMetadata)
    ensures
        m == (FrHfsVolumeMetadata {
            signature: v.signature,
            version: v.version,
            block_size_bytes: v.block_size_bytes,
            total_blocks: v.total_blocks,
            file_count: v.file_count,
            folder_count: v.folder_count,
        }),
{
    FrHfsVolumeMetadata {
        signature: v.signature,
        version: v.version,
        block_size_bytes: v.block_size_bytes,
        total_blocks: v.total_blocks,
        file_count: v.file_count,
        folder_count: v.folder_count,
    }
}

/// The UFS superblock record.
pub fn encode_ufs_superblock_metadata(sb: &UfsSuperblock) -> (m: FrUfsSuperblockMetadata)
    ensures
        m == (FrUfsSuperblockMetadata {
            magic: sb.magic,
            block_size_bytes: sb.block_size_bytes,
            fragment_size_bytes: sb.fragment_size_bytes,
            _reserved0: 0,
            total_blocks: sb.total_blocks,
        }),
{
    FrUfsSuperblockMetadata {
        magic: sb.magic,
        block_size_bytes: sb.block_size_bytes,
        fragment_size_bytes: sb.fragment_size_bytes,
        _reserved0: 0,
        total_blocks: sb.total_blocks,
    }
}

// ---------------------------------------------------------------------------
// Candidate records
// ---------------------------------------------------------------------------

/// The deleted flag, with the directory flag for a directory.
pub open spec fn deleted_flags(is_directory: bool) -> u32 {
    if is_directory {
        DELETED_CANDIDATE_FLAG_DELETED | DELETED_CANDIDATE_FLAG_DIRECTORY
    } else {
        DELETED_CANDIDATE_FLAG_DELETED
    }
}

fn deleted_flags_of(is_directory: bool) -> (f: u32)
    ensures
        f == deleted_flags(is_directory),
{
    let mut flags = DELETED_CANDIDATE_FLAG_DELETED;
    if is_directory {
        flags = flags | DELETED_CANDIDATE_FLAG_DIRECTORY;
    }
    flags
}

/// The ReFS candidate record: always flagged deleted.
pub fn encode_refs_deleted_candidate(c: &RefsDeletedCandidate) -> (r: FrRefsDeletedCandidate)
    ensures
        r.flags == DELETED_CANDIDATE_FLAG_DELETED,
        r.object_id == c.object_id,
        r.size_bytes == c.size_bytes,
        r.name@ == c_field(encode_utf8(c.name@), 128),
        r.reconstructed_path@ == c_field(encode_utf8(c.path@), 256),
{
    FrRefsDeletedCandidate {
        flags: DELETED_CANDIDATE_FLAG_DELETED,
        object_id: c.object_id,
        size_bytes: c.size_bytes,
        name: utf8_field::<128>(c.name.as_str()),
        reconstructed_path: utf8_field::<256>(c.path.as_str()),
    }
}

/// The ext candidate record.
pub fn encode_ext_deleted_candidate(c: &ExtDeletedCandidate) -> (r: FrExtDeletedCandidate)
    ensures
        r.flags == deleted_flags(c.is_directory),
        r.inode_number == c.inode_number,
        r.entry_offset_bytes == c.entry_offset_bytes,
        r.size_bytes == c.size_bytes,
        r.name@ == c_field(encode_utf8(c.name@), 128),
        r.reconstructed_path@ == c_field(encode_utf8(c.path@), 256),
{
    FrExtDeletedCandidate {
        flags: deleted_flags_of(c.is_directory),
        inode_number: c.inode_number,
        entry_offset_bytes: c.entry_offset_bytes,
        size_bytes: c.size_bytes,
        name: utf8_field::<128>(c.name.as_str()),
        reconstructed_path: utf8_field::<256>(c.path.as_str()),
    }
}

/// The APFS candidate record.
pub fn encode_apfs_deleted_candidate(c: &ApfsDeletedCandidate) -> (r: FrApfsDeletedCandidate)
    ensures
        r.flags == deleted_flags(c.is_directory),
        r._reserved0 == 0,
        r.cnid == c.cnid,
        r.size_bytes == c.size_bytes,
        r.name@ == c_field(encode_utf8(c.name@), 128),
        r.reconstructed_path@ == c_field(encode_utf8(c.path@), 256),
{
    FrApfsDeletedCandidate {
        flags: deleted_flags_of(c.is_directory),
        _reserved0: 0,
        cnid: c.cnid,
        size_bytes: c.size_bytes,
        name: utf8_field::<128>(c.name.as_str()),
        reconstructed_path: utf8_field::<256>(c.path.as_str()),
    }
}

/// The HFS+ candidate record.
pub fn encode_hfs_deleted_candidate(c: &HfsDeletedCandidate) -> (r: FrHfsDeletedCandidate)
    ensures
        r.flags == deleted_flags(c.is_directory),
        r.cnid == c.cnid,
        r.size_bytes == c.size_bytes,
        r.name@ == c_field(encode_utf8(c.name@), 128),
        r.reconstructed_path@ == c_field(encode_utf8(c.path@), 256),
{
    FrHfsDeletedCandidate {
        flags: deleted_flags_of(c.is_directory),
        cnid: c.cnid,
        size_bytes: c.size_bytes,
        name: utf8_field::<128>(c.name.as_str()),
        reconstructed_path: utf8_field::<256>(c.path.as_str()),
    }
}

/// The UFS candidate record.
pub fn encode_ufs_deleted_candidate(c: &UfsDeletedCandidate) -> (r: FrUfsDeletedCandidate)
    ensures
        r.flags == deleted_flags(c.is_directory),
        r.inode_number == c.inode_number,
        r._reserved0 == 0,
        r.size_bytes == c.size_bytes,
        r.name@ == c_field(encode_utf8(c.name@), 128),
        r.reconstructed_path@ == c_field(encode_utf8(c.path@), 256),
{
    FrUfsDeletedCandidate {
        flags: deleted_flags_of(c.is_directory),
        inode_number: c.inode_number,
        _reserved0: 0,
        size_bytes: c.size_bytes,
        name: utf8_field::<128>(c.name.as_str()),
        reconstructed_path: utf8_field::<256>(c.path.as_str()),
    }
}

/// The FAT candidate record.
pub fn encode_fat_deleted_candidate(c: &FatDeletedEntry) -> (r: FrFatDeletedCandidate)
    ensures
        r.flags == deleted_flags(c.is_directory),
        r.start_cluster == c.start_cluster,
        r.size_bytes == c.size_bytes,
        r.name@ == c_field(encode_utf8(c.name@), 128),
        r.reconstructed_path@ == c_field(encode_utf8(c.path@), 256),
{
    FrFatDeletedCandidate {
        flags: deleted_flags_of(c.is_directory),
        start_cluster: c.start_cluster,
        size_bytes: c.size_bytes,
        name: utf8_field::<128>(c.name.as_str()),
        reconstructed_path: utf8_field::<256>(c.path.as_str()),
    }
}


// ---------------------------------------------------------------------------
// RAID codes
// ---------------------------------------------------------------------------

pub const RAID_LAYOUT_MAX_MEMBERS: usize = 32;
pub const RAID_MANUAL_OVERRIDE_FLAG_LEVEL: u32 = 0x0001;
pub const RAID_MANUAL_OVERRIDE_FLAG_STRIPE_SIZE: u32 = 0x0002;
pub const RAID_MANUAL_OVERRIDE_FLAG_DATA_OFFSET: u32 = 0x0004;
pub const RAID_MANUAL_OVERRIDE_FLAG_PARITY_ROTATION: u32 = 0x0008;
pub const RAID_MANUAL_OVERRIDE_FLAG_DISK_ORDER: u32 = 0x0010;
/// Status code of a RAID record that does not decode.
pub const RAID_STATUS_INVALID_LAYOUT: i32 = 142;
/// Status code of a RAID layout that the engine does not support.
pub const RAID_STATUS_UNSUPPORTED_LAYOUT: i32 = 141;

/// Code of a metadata family.
pub open spec fn family_code(f: RaidMetadataFamily) -> u32 {
    match f {
        RaidMetadataFamily::LinuxMd => 1,
        RaidMetadataFamily::WindowsStorageSpaces => 2,
        RaidMetadataFamily::IntelImsm => 3,
        RaidMetadataFamily::Ddf => 4,
    }
}

/// Code of a RAID level.
pub open spec fn level_code(l: RaidLevel) -> u32 {
    match l {
        RaidLevel::Raid0 => 1,
        RaidLevel::Raid1 => 2,
        RaidLevel::Raid4 => 3,
        RaidLevel::Raid5 => 4,
        RaidLevel::Raid6 => 5,
        RaidLevel::Raid10 => 6,
        RaidLevel::Unknown => 255,
    }
}

/// Code of a parity rotation.
pub open spec fn rotation_code(r: ParityRotation) -> u32 {
    match r {
        ParityRotation::LeftSymmetric => 1,
        ParityRotation::RightSymmetric => 2,
        ParityRotation::Unknown => 255,
    }
}

/// The metadata family's code.
pub fn encode_raid_metadata_family(family: RaidMetadataFamily) -> (c: u32)
    ensures
        c == family_code(family),
{
    match family {
        RaidMetadataFamily::LinuxMd => 1,
        RaidMetadataFamily::WindowsStorageSpaces => 2,
        RaidMetadataFamily::IntelImsm => 3,
        RaidMetadataFamily::Ddf => 4,
    }
}

/// The metadata family with code `value`.
pub fn decode_raid_metadata_family(value: u32) -> (r: Option<RaidMetadataFamily>)
    ensures
        r == decode_family(value),
{
    match value {
        1 => Some(RaidMetadataFamily::LinuxMd),
        2 => Some(RaidMetadataFamily::WindowsStorageSpaces),
        3 => Some(RaidMetadataFamily::IntelImsm),
        4 => Some(RaidMetadataFamily::Ddf),
        _ => None,
    }
}

/// The level's code.
pub fn encode_raid_level(level: RaidLevel) -> (c: u32)
    ensures
        c == level_code(level),
{
    match level {
        RaidLevel::Raid0 => 1,
        RaidLevel::Raid1 => 2,
        RaidLevel::Raid4 => 3,
        RaidLevel::Raid5 => 4,
        RaidLevel::Raid6 => 5,
        RaidLevel::Raid10 => 6,
        RaidLevel::Unknown => 255,
    }
}

/// The level with code `value`.
pub fn decode_raid_level(value: u32) -> (r: Option<RaidLevel>)
    ensures
        r == decode_level(value),
{
    match value {
        1 => Some(RaidLevel::Raid0),
        2 => Some(RaidLevel::Raid1),
        3 => Some(RaidLevel::Raid4),
        4 => Some(RaidLevel::Raid5),
        5 => Some(RaidLevel::Raid6),
        6 => Some(RaidLevel::Raid10),
        255 => Some(RaidLevel::Unknown),
        _ => None,
    }
}

/// The rotation's code.
pub fn encode_raid_parity_rotation(rotation: ParityRotation) -> (c: u32)
    ensures
        c == rotation_code(rotation),
{
    match rotation {
        ParityRotation::LeftSymmetric => 1,
        ParityRotation::RightSymmetric => 2,
        ParityRotation::Unknown => 255,
    }
}

/// The rotation with code `value`.
pub fn decode_raid_parity_rotation(value: u32) -> (r: Option<ParityRotation>)
    ensures
        r == decode_rotation(value),
{
    match value {
        1 => Some(ParityRotation::LeftSymmetric),
        2 => Some(ParityRotation::RightSymmetric),
        255 => Some(ParityRotation::Unknown),
        _ => None,
    }
}

/// How many members of an order fit in a record.
pub open spec fn kept_members(n: nat) -> nat {
    if n < 32 {
        n
    } else {
        32
    }
}

/// The layout record: codes, and the first 32 members of the disk order
/// followed by zeros.
pub fn encode_raid_layout(layout: &RaidLayout) -> (r: FrRaidLayout)
    ensures
        r.metadata_family == family_code(layout.metadata_family),
        r.level == level_code(layout.level),
        r.member_count == layout.member_count,
        r.stripe_size_bytes == layout.stripe_size_bytes,
        r.data_offset_bytes == layout.data_offset_bytes,
        r.parity_rotation == rotation_code(layout.parity_rotation),
        r.confidence_score == layout.confidence_score,
        r._reserved0@ == seq![0u8, 0u8, 0u8],
        r.disk_order_count == kept_members(layout.disk_order@.len()),
        r.disk_order@ == Seq::new(
            32,
            |i: int| if i < kept_members(layout.disk_order@.len()) { layout.disk_order@[i] } else { 0u32 },
        ),
        2 <= layout.member_count <= 32 && 1 <= layout.disk_order@.len() <= layout.member_count ==> decoded_layout(r)
            == Some(layout@),
{
    let count = if layout.disk_order.len() < RAID_LAYOUT_MAX_MEMBERS {
        layout.disk_order.len()
    } else {
        RAID_LAYOUT_MAX_MEMBERS
    };
    let mut disk_order = [0u32; 32];
    let mut i: usize = 0;
    while i < 32
        invariant
            disk_order@.len() == 32,
            i <= 32,
            count == kept_members(layout.disk_order@.len()),
            forall|m: int| 0 <= m < i ==> disk_order@[m] == (if m < count { layout.disk_order@[m] } else { 0u32 }),
        decreases 32 - i,
    {
        if i < count {
            disk_order[i] = layout.disk_order[i];
        } else {
            disk_order[i] = 0;
        }
        i = i + 1;
    }
    let reserved = [0u8; 3];
    assert(reserved@ =~= seq![0u8, 0u8, 0u8]);
    let r = FrRaidLayout {
        metadata_family: encode_raid_metadata_family(layout.metadata_family),
        level: encode_raid_level(layout.level),
        member_count: layout.member_count,
        stripe_size_bytes: layout.stripe_size_bytes,
        data_offset_bytes: layout.data_offset_bytes,
        parity_rotation: encode_raid_parity_rotation(layout.parity_rotation),
        confidence_score: layout.confidence_score,
        _reserved0: reserved,
        disk_order_count: count as u32,
        disk_order,
    };
    assert(r.disk_order@ =~= Seq::new(
        32,
        |i: int| if i < kept_members(layout.disk_order@.len()) { layout.disk_order@[i] } else { 0u32 },
    ));
    proof {
        law_raid_codes_round_trip(layout.metadata_family, layout.level, layout.parity_rotation);
        if 2 <= layout.member_count <= 32 && 1 <= layout.disk_order@.len() <= layout.member_count {
            assert(r.disk_order@.take(layout.disk_order@.len() as int) =~= layout.disk_order@);
        }
    }
    r
}

/// A code that decodes is the code of what it decodes to.
pub proof fn law_raid_decoded_codes_round_trip(v: u32)
    ensures
        decode_family(v) matches Some(f) ==> family_code(f) == v,
        decode_level(v) matches Some(l) ==> level_code(l) == v,
        decode_rotation(v) matches Some(p) ==> rotation_code(p) == v,
{
}

/// Every family, level and rotation decodes from its own code.
pub proof fn law_raid_codes_round_trip(f: RaidMetadataFamily, l: RaidLevel, p: ParityRotation)
    ensures
        decode_family(family_code(f)) == Some(f),
        decode_level(level_code(l)) == Some(l),
        decode_rotation(rotation_code(p)) == Some(p),
{
}

/// The layout that record `r` describes, when its member count is 2 to 32
/// and its codes are known: the disk order is the record's first
/// `min(disk_order_count, member_count, 32)` entries, or the identity order
/// when that is zero.
pub open spec fn decoded_layout(r: FrRaidLayout) -> Option<RaidLayoutView> {
    let count = if r.disk_order_count < r.member_count {
        r.disk_order_count as int
    } else {
        r.member_count as int
    };
    let count = if count < 32 {
        count
    } else {
        32
    };
    if r.member_count < 2 || r.member_count > 32 {
        None
    } else {
        match (decode_family(r.metadata_family), decode_level(r.level), decode_rotation(r.parity_rotation)) {
            (Some(f), Some(l), Some(p)) => Some(
                RaidLayoutView {
                    metadata_family: f,
                    level: l,
                    member_count: r.member_count,
                    stripe_size_bytes: r.stripe_size_bytes,
                    data_offset_bytes: r.data_offset_bytes,
                    parity_rotation: p,
                    disk_order: if count == 0 {
                        identity_order(r.member_count)
                    } else {
                        r.disk_order@.take(count)
                    },
                    confidence_score: r.confidence_score,
                },
            ),
            _ => None,
        }
    }
}

/// The family with code `v`.
pub open spec fn decode_family(v: u32) -> Option<RaidMetadataFamily> {
    if v == 1 {
        Some(RaidMetadataFamily::LinuxMd)
    } else if v == 2 {
        Some(RaidMetadataFamily::WindowsStorageSpaces)
    } else if v == 3 {
        Some(RaidMetadataFamily::IntelImsm)
    } else if v == 4 {
        Some(RaidMetadataFamily::Ddf)
    } else {
        None
    }
}

/// The level with code `v`.
pub open spec fn decode_level(v: u32) -> Option<RaidLevel> {
    if v == 1 {
        Some(RaidLevel::Raid0)
    } else if v == 2 {
        Some(RaidLevel::Raid1)
    } else if v == 3 {
        Some(RaidLevel::Raid4)
    } else if v == 4 {
        Some(RaidLevel::Raid5)
    } else if v == 5 {
        Some(RaidLevel::Raid6)
    } else if v == 6 {
        Some(RaidLevel::Raid10)
    } else if v == 255 {
        Some(RaidLevel::Unknown)
    } else {
        None
    }
}

/// The rotation with code `v`.
pub open spec fn decode_rotation(v: u32) -> Option<ParityRotation> {
    if v == 1 {
        Some(ParityRotation::LeftSymmetric)
    } else if v == 2 {
        Some(ParityRotation::RightSymmetric)
    } else if v == 255 {
        Some(ParityRotation::Unknown)
    } else {
        None
    }
}

/// Decodes a layout record; `Err(142)` when it does not describe a layout.
pub fn decode_raid_layout(layout: &FrRaidLayout) -> (r: Result<RaidLayout, i32>)
    ensures
        match (r, decoded_layout(*layout)) {
            (Ok(l), Some(v)) => l@ == v,
            (Err(code), None) => code == RAID_STATUS_INVALID_LAYOUT,
            _ => false,
        },
{
    if layout.member_count < 2 || layout.member_count as usize > RAID_LAYOUT_MAX_MEMBERS {
        return Err(RAID_STATUS_INVALID_LAYOUT);
    }
    let metadata_family = match decode_raid_metadata_family(layout.metadata_family) {
        Some(v) => v,
        None => return Err(RAID_STATUS_INVALID_LAYOUT),
    };
    let level = match decode_raid_level(layout.level) {
        Some(v) => v,
        None => return Err(RAID_STATUS_INVALID_LAYOUT),
    };
    let parity_rotation = match decode_raid_parity_rotation(layout.parity_rotation) {
        Some(v) => v,
        None => return Err(RAID_STATUS_INVALID_LAYOUT),
    };
    let mut count = if layout.disk_order_count < layout.member_count {
        layout.disk_order_count
    } else {
        layout.member_count
    };
    if count > 32 {
        count = 32;
    }
    let disk_order = if count == 0 {
        identity_disk_order(layout.member_count)
    } else {
        let mut v: Vec<u32> = Vec::new();
        let mut i: usize = 0;
        while i < count as usize
            invariant
                count <= 32,
                layout.disk_order@.len() == 32,
                i <= count,
                v@ == layout.disk_order@.take(i as int),
            decreases count - i,
        {
            v.push(layout.disk_order[i]);
            assert(layout.disk_order@.take(i + 1) =~= layout.disk_order@.take(i as int).push(layout.disk_order@[i as int]));
            i = i + 1;
        }
        v
    };
    Ok(RaidLayout {
        metadata_family,
        level,
        member_count: layout.member_count,
        stripe_size_bytes: layout.stripe_size_bytes,
        data_offset_bytes: layout.data_offset_bytes,
        parity_rotation,
        disk_order,
        confidence_score: layout.confidence_score,
    })
}

/// The override that record `raw` describes: each field whose flag is set,
/// `None` when a set level or rotation code is unknown or a set disk order
/// has no entries or more than 32.
pub open spec fn decoded_override(raw: FrRaidManualOverride) -> Option<RaidManualOverrideView> {
    let level_set = raw.flags & RAID_MANUAL_OVERRIDE_FLAG_LEVEL != 0;
    let rotation_set = raw.flags & RAID_MANUAL_OVERRIDE_FLAG_PARITY_ROTATION != 0;
    let order_set = raw.flags & RAID_MANUAL_OVERRIDE_FLAG_DISK_ORDER != 0;
    if level_set && decode_level(raw.level) is None {
        None
    } else if rotation_set && decode_rotation(raw.parity_rotation) is None {
        None
    } else if order_set && (raw.disk_order_count == 0 || raw.disk_order_count > 32) {
        None
    } else {
        Some(
            RaidManualOverrideView {
                level: if level_set {
                    decode_level(raw.level)
                } else {
                    None
                },
                stripe_size_bytes: if raw.flags & RAID_MANUAL_OVERRIDE_FLAG_STRIPE_SIZE != 0 {
                    Some(raw.stripe_size_bytes)
                } else {
                    None
                },
                data_offset_bytes: if raw.flags & RAID_MANUAL_OVERRIDE_FLAG_DATA_OFFSET != 0 {
                    Some(raw.data_offset_bytes)
                } else {
                    None
                },
                parity_rotation: if rotation_set {
                    decode_rotation(raw.parity_rotation)
                } else {
                    None
                },
                disk_order: if order_set {
                    Some(raw.disk_order@.take(raw.disk_order_count as int))
                } else {
                    None
                },
            },
        )
    }
}

/// Decodes an override record; `Err(142)` when it is malformed.
pub fn decode_raid_manual_override(raw: &FrRaidManualOverride) -> (r: Result<RaidManualOverride, i32>)
    ensures
        match (r, decoded_override(*raw)) {
            (Ok(o), Some(v)) => o@ == v,
            (Err(code), None) => code == RAID_STATUS_INVALID_LAYOUT,
            _ => false,
        },
{
    let mut out = RaidManualOverride::default();
    if raw.flags & RAID_MANUAL_OVERRIDE_FLAG_LEVEL != 0 {
        out.level = match decode_raid_level(raw.level) {
            Some(v) => Some(v),
            None => return Err(RAID_STATUS_INVALID_LAYOUT),
        };
    }
    if raw.flags & RAID_MANUAL_OVERRIDE_FLAG_STRIPE_SIZE != 0 {
        out.stripe_size_bytes = Some(raw.stripe_size_bytes);
    }
    if raw.flags & RAID_MANUAL_OVERRIDE_FLAG_DATA_OFFSET != 0 {
        out.data_offset_bytes = Some(raw.data_offset_bytes);
    }
    if raw.flags & RAID_MANUAL_OVERRIDE_FLAG_PARITY_ROTATION != 0 {
        out.parity_rotation = match decode_raid_parity_rotation(raw.parity_rotation) {
            Some(v) => Some(v),
            None => return Err(RAID_STATUS_INVALID_LAYOUT),
        };
    }
    if raw.flags & RAID_MANUAL_OVERRIDE_FLAG_DISK_ORDER != 0 {
        if raw.disk_order_count == 0 || raw.disk_order_count as usize > RAID_LAYOUT_MAX_MEMBERS {
            return Err(RAID_STATUS_INVALID_LAYOUT);
        }
        let count = raw.disk_order_count as usize;
        let mut v: Vec<u32> = Vec::new();
        let mut i: usize = 0;
        while i < count
            invariant
                count <= 32,
                raw.disk_order@.len() == 32,
                i <= count,
                v@ == raw.disk_order@.take(i as int),
            decreases count - i,
        {
            v.push(raw.disk_order[i]);
            assert(raw.disk_order@.take(i + 1) =~= raw.disk_order@.take(i as int).push(raw.disk_order@[i as int]));
            i = i + 1;
        }
        out.disk_order = Some(v);
    }
    Ok(out)
}

/// The mapping record: the parity member, when there is one, with a flag.
pub fn encode_raid_mapping(mapping: &RaidLogicalMapping) -> (r: FrRaidLogicalMapping)
    ensures
        r == (FrRaidLogicalMapping {
            member_index: mapping.member_index,
            member_offset_bytes: mapping.member_offset_bytes,
            has_parity_member: if mapping.parity_member_index is Some { 1u32 } else { 0u32 },
            parity_member_index: match mapping.parity_member_index {
                Some(p) => p,
                None => 0,
            },
        }),
{
    FrRaidLogicalMapping {
        member_index: mapping.member_index,
        member_offset_bytes: mapping.member_offset_bytes,
        has_parity_member: if mapping.parity_member_index.is_some() {
            1
        } else {
            0
        },
        parity_member_index: match mapping.parity_member_index {
            Some(p) => p,
            None => 0,
        },
    }
}

// ---------------------------------------------------------------------------
// Status codes and request normalisation
// ---------------------------------------------------------------------------

/// The status of a RAID error: 142 for a disk order or stripe size that a
/// manual override supplied, else 141.
pub open spec fn raid_error_status(err: RaidError, has_manual_override: bool) -> i32 {
    if has_manual_override && (err is InvalidDiskOrder || err is InvalidStripeSize) {
        RAID_STATUS_INVALID_LAYOUT
    } else {
        RAID_STATUS_UNSUPPORTED_LAYOUT
    }
}

/// Status code of a RAID error: a bad disk order or stripe size under a
/// manual override is the caller's (142), anything else an unsupported
/// layout (141).
pub fn map_raid_error_to_status(err: &RaidError, has_manual_override: bool) -> (code: i32)
    ensures
        code == raid_error_status(*err, has_manual_override),
{
    let caller_fault = match err {
        RaidError::InvalidDiskOrder => true,
        RaidError::InvalidStripeSize(_) => true,
        _ => false,
    };
    if caller_fault && has_manual_override {
        RAID_STATUS_INVALID_LAYOUT
    } else {
        RAID_STATUS_UNSUPPORTED_LAYOUT
    }
}

/// Status code of a FAT scan error.
pub fn map_fat_scan_error(err: &FatScanError) -> (code: i32)
    ensures
        code == match *err {
            FatScanError::Boot(_) => 70i32,
            FatScanError::InvalidCluster(_) => 71i32,
            FatScanError::ArithmeticOverflow(_) => 72i32,
            FatScanError::OutOfBounds { .. } => 31i32,
            FatScanError::ClusterLoop(_) => 73i32,
            FatScanError::DirectoryEntryTruncated => 74i32,
        },
{
    match err {
        FatScanError::Boot(_) => 70,
        FatScanError::InvalidCluster(_) => 71,
        FatScanError::ArithmeticOverflow(_) => 72,
        FatScanError::OutOfBounds { .. } => 31,
        FatScanError::ClusterLoop(_) => 73,
        FatScanError::DirectoryEntryTruncated => 74,
    }
}

/// Status code of a USN parse error: 51 for truncation, 52 for bad lengths,
/// ranges or names, 53 for an unsupported version.
pub fn map_usn_parse_error(err: &UsnParseError) -> (code: i32)
    ensures
        code == match *err {
            UsnParseError::TruncatedRecordHeader { .. } => 51i32,
            UsnParseError::TruncatedRecordBody { .. } => 51i32,
            UsnParseError::InvalidRecordLength { .. } => 52i32,
            UsnParseError::InvalidFileNameRange { .. } => 52i32,
            UsnParseError::InvalidFileNameEncoding { .. } => 52i32,
            UsnParseError::UnsupportedVersion { .. } => 53i32,
        },
{
    match err {
        UsnParseError::TruncatedRecordHeader { .. } | UsnParseError::TruncatedRecordBody { .. } => 51,
        UsnParseError::InvalidRecordLength { .. } | UsnParseError::InvalidFileNameRange { .. }
        | UsnParseError::InvalidFileNameEncoding { .. } => 52,
        UsnParseError::UnsupportedVersion { .. } => 53,
    }
}

/// Status code of a quick-scan error.
pub fn map_quick_scan_error(err: &QuickScanError) -> (code: i32)
    ensures
        code == match *err {
            QuickScanError::SourceTooSmall => 31i32,
            QuickScanError::BootSector(_) => 30i32,
            QuickScanError::InvalidMftOffset => 33i32,
            QuickScanError::MftOutOfBounds(_, _) => 31i32,
            QuickScanError::InvalidFileRecordSize(_) => 32i32,
        },
{
    match err {
        QuickScanError::SourceTooSmall => 31,
        QuickScanError::BootSector(_) => 30,
        QuickScanError::InvalidMftOffset => 33,
        QuickScanError::MftOutOfBounds(_, _) => 31,
        QuickScanError::InvalidFileRecordSize(_) => 32,
    }
}

/// Code of a confidence tier, best first from 0.
pub fn confidence_tier_code(tier: ConfidenceTier) -> (c: u32)
    ensures
        c == tier_code(tier),
{
    match tier {
        ConfidenceTier::VeryHigh => 0,
        ConfidenceTier::High => 1,
        ConfidenceTier::Medium => 2,
        ConfidenceTier::Low => 3,
        ConfidenceTier::VeryLow => 4,
    }
}

/// Code of a confidence tier.
pub open spec fn tier_code(t: ConfidenceTier) -> u32 {
    match t {
        ConfidenceTier::VeryHigh => 0,
        ConfidenceTier::High => 1,
        ConfidenceTier::Medium => 2,
        ConfidenceTier::Low => 3,
        ConfidenceTier::VeryLow => 4,
    }
}

/// 64 MiB.
pub const DEFAULT_MAX_SCAN_BYTES: u64 = 67108864;

/// A scan window: 64 MiB when none is asked for, else the request up to
/// what an address can reach.
pub fn normalize_max_scan_bytes(max_scan_bytes: u64) -> (r: u64)
    ensures
        r == if max_scan_bytes == 0 {
            DEFAULT_MAX_SCAN_BYTES
        } else if max_scan_bytes > usize::MAX {
            usize::MAX as u64
        } else {
            max_scan_bytes
        },
{
    if max_scan_bytes == 0 {
        DEFAULT_MAX_SCAN_BYTES
    } else if max_scan_bytes > usize::MAX as u64 {
        usize::MAX as u64
    } else {
        max_scan_bytes
    }
}

/// A record budget: 4096 when none is asked for.
pub fn normalize_max_records(max_records: u32) -> (r: usize)
    ensures
        r == if max_records == 0 {
            4096
        } else {
            max_records as usize
        },
{
    if max_records == 0 {
        4096
    } else {
        max_records as usize
    }
}

/// `value`, or `u32::MAX` when it does not fit.
pub fn usize_to_u32_saturating(value: usize) -> (r: u32)
    ensures
        r == if value > u32::MAX {
            u32::MAX
        } else {
            value as u32
        },
{
    if value > u32::MAX as usize {
        u32::MAX
    } else {
        value as u32
    }
}

/// The source kind with code `raw` (3 is a volume too).
pub fn parse_source_kind(raw: i32) -> (r: Result<RecoverySourceKind, ()>)
    ensures
        r == if raw == 0 {
            Ok::<RecoverySourceKind, ()>(RecoverySourceKind::PhysicalDisk)
        } else if raw == 1 || raw == 3 {
            Ok(RecoverySourceKind::Volume)
        } else if raw == 2 {
            Ok(RecoverySourceKind::ImageFile)
        } else {
            Err(())
        },
{
    match raw {
        0 => Ok(RecoverySourceKind::PhysicalDisk),
        1 => Ok(RecoverySourceKind::Volume),
        2 => Ok(RecoverySourceKind::ImageFile),
        3 => Ok(RecoverySourceKind::Volume),
        _ => Err(()),
    }
}

/// The quick-scan totals record, counts saturated at `u32::MAX`.
pub fn encode_quick_scan_summary(summary: &QuickScanSummary, usn_enriched_records: usize) -> (r: FrNtfsQuickScanSummary)
    ensures
        r.parsed_records == saturated(summary.parsed_records),
        r.parse_failures == saturated(summary.parse_failures),
        r.resident_attribute_count == saturated(summary.resident_attribute_count),
        r.non_resident_attribute_count == saturated(summary.non_resident_attribute_count),
        r.deleted_records == saturated(summary.deleted_records),
        r.directory_records == saturated(summary.directory_records),
        r.named_records == saturated(summary.named_records),
        r.records_with_non_resident_data == saturated(summary.records_with_non_resident_data),
        r.usn_enriched_records == saturated(usn_enriched_records),
        r.usn_ghost_records == 0,
{
    FrNtfsQuickScanSummary {
        parsed_records: usize_to_u32_saturating(summary.parsed_records),
        parse_failures: usize_to_u32_saturating(summary.parse_failures),
        resident_attribute_count: usize_to_u32_saturating(summary.resident_attribute_count),
        non_resident_attribute_count: usize_to_u32_saturating(summary.non_resident_attribute_count),
        deleted_records: usize_to_u32_saturating(summary.deleted_records),
        directory_records: usize_to_u32_saturating(summary.directory_records),
        named_records: usize_to_u32_saturating(summary.named_records),
        records_with_non_resident_data: usize_to_u32_saturating(summary.records_with_non_resident_data),
        usn_enriched_records: usize_to_u32_saturating(usn_enriched_records),
        usn_ghost_records: 0,
    }
}

/// `v` saturated to a `u32`.
pub open spec fn saturated(v: usize) -> u32 {
    if v > u32::MAX {
        u32::MAX
    } else {
        v as u32
    }
}


// ---------------------------------------------------------------------------
// Quick-scan candidate records
// ---------------------------------------------------------------------------

/// The evidence flag of one source.
pub open spec fn evidence_bit(e: EvidenceSource) -> u32 {
    match e {
        EvidenceSource::Mft => CANDIDATE_FLAG_EVIDENCE_MFT,
        EvidenceSource::DirectoryIndex => CANDIDATE_FLAG_EVIDENCE_DIRECTORY_INDEX,
        EvidenceSource::Usn => CANDIDATE_FLAG_EVIDENCE_USN,
        EvidenceSource::Vss => CANDIDATE_FLAG_EVIDENCE_VSS,
        EvidenceSource::Carve => CANDIDATE_FLAG_EVIDENCE_CARVE,
    }
}

/// `acc` with the flag of each source of `s` added, in order.
pub open spec fn with_evidence_bits(acc: u32, s: Seq<EvidenceSource>) -> u32
    decreases s.len(),
{
    if s.len() == 0 {
        acc
    } else {
        with_evidence_bits(acc, s.drop_last()) | evidence_bit(s.last())
    }
}

/// `f` when `b` holds, else 0.
pub open spec fn flag_if(b: bool, f: u32) -> u32 {
    if b {
        f
    } else {
        0
    }
}

/// The flags of a candidate record: its state, then its evidence.
pub open spec fn candidate_flags(c: CandidateView) -> u32 {
    let state = 0u32 | flag_if(c.in_use, CANDIDATE_FLAG_IN_USE) | flag_if(c.deleted, CANDIDATE_FLAG_DELETED)
        | flag_if(c.is_directory, CANDIDATE_FLAG_DIRECTORY) | flag_if(
        c.has_non_resident_data,
        CANDIDATE_FLAG_NON_RESIDENT_DATA,
    ) | flag_if(c.name is Some, CANDIDATE_FLAG_HAS_NAME) | flag_if(c.reconstructed_path is Some, CANDIDATE_FLAG_HAS_PATH)
        | flag_if(c.has_named_data_streams, CANDIDATE_FLAG_HAS_NAMED_DATA_STREAM) | flag_if(
        c.has_compressed_data,
        CANDIDATE_FLAG_COMPRESSED,
    ) | flag_if(c.has_sparse_data, CANDIDATE_FLAG_SPARSE) | flag_if(c.has_encrypted_data, CANDIDATE_FLAG_ENCRYPTED);
    with_evidence_bits(state, c.evidence_sources)
}

/// A candidate that may come back incomplete: unnamed, without a path, or
/// with named, compressed or encrypted data.
pub open spec fn candidate_partial(c: CandidateView) -> bool {
    c.name is None || c.reconstructed_path is None || c.has_named_data_streams || c.has_compressed_data
        || c.has_encrypted_data
}

/// The candidate's score.
pub open spec fn candidate_score(c: CandidateView) -> int {
    final_score(c.evidence_sources, c.name is Some && c.reconstructed_path is Some, candidate_partial(c))
}

/// The reasons joined with `; `.
pub open spec fn joined_reasons(r: Seq<&'static str>) -> Seq<char>
    decreases r.len(),
{
    if r.len() == 0 {
        Seq::empty()
    } else if r.len() == 1 {
        r[0]@
    } else {
        joined_reasons(r.drop_last()) + "; "@ + r.last()@
    }
}

/// `Score N.`, followed by the reasons when there are any.
pub open spec fn reason_text(score: nat, reasons: Seq<&'static str>) -> Seq<char> {
    if reasons.len() == 0 {
        "Score "@ + decimal(score) + "."@
    } else {
        "Score "@ + decimal(score) + ". "@ + joined_reasons(reasons)
    }
}

/// The characters of an optional text, or none.
pub open spec fn text_or_empty(t: Option<Seq<char>>) -> Seq<char> {
    match t {
        Some(s) => s,
        None => Seq::empty(),
    }
}

fn clone_text(o: &Option<String>) -> (r: Option<String>)
    ensures
        text_of(r) == text_of(*o),
{
    match o {
        Some(s) => Some(s.clone()),
        None => None,
    }
}

fn text_field<const N: usize>(o: &Option<String>) -> (field: [u8; N])
    requires
        N > 0,
    ensures
        field@ == c_field(encode_utf8(text_or_empty(text_of(*o))), N as nat),
{
    match o {
        Some(s) => {
            let t = s.as_str();
            assert(t@ == s@);
            utf8_field::<N>(t)
        },
        None => {
            proof {
                reveal_strlit("");
            }
            let f = utf8_field::<N>("");
            assert(""@ =~= Seq::<char>::empty());
            f
        },
    }
}

fn join_reasons(reasons: &Vec<&'static str>) -> (r: Vec<char>)
    ensures
        r@ == joined_reasons(reasons@),
{
    let mut out: Vec<char> = Vec::new();
    let mut k: usize = 0;
    while k < reasons.len()
        invariant
            k <= reasons@.len(),
            out@ == joined_reasons(reasons@.take(k as int)),
        decreases reasons@.len() - k,
    {
        let ghost before = out@;
        assert(reasons@.take(k + 1).drop_last() =~= reasons@.take(k as int));
        if k > 0 {
            push_str(&mut out, "; ");
        }
        push_str(&mut out, reasons[k]);
        proof {
            if k == 0 {
                assert(before =~= Seq::<char>::empty());
                assert(out@ =~= reasons@.take(1)[0]@);
            } else {
                assert(out@ =~= before + "; "@ + reasons@[k as int]@);
            }
        }
        k = k + 1;
    }
    assert(reasons@.take(reasons@.len() as int) =~= reasons@);
    out
}

// ---------------------------------------------------------------------------
// Carved candidates
// ---------------------------------------------------------------------------

pub const CARVE_CANDIDATE_FLAG_PARTIAL: u32 = 0x0001;

/// The strings joined with `; `.
pub open spec fn joined_strings(v: Seq<Seq<char>>) -> Seq<char>
    decreases v.len(),
{
    if v.len() == 0 {
        Seq::empty()
    } else if v.len() == 1 {
        v[0]
    } else {
        joined_strings(v.drop_last()) + "; "@ + v.last()
    }
}

/// `carve_<offset, 16 upper-case hex digits at least>.<extension>`.
pub open spec fn carve_file_name(offset: nat, ext: Seq<char>) -> Seq<char> {
    "carve_"@ + zero_padded(hex_min(offset, true), 16) + "."@ + ext
}

/// The confidence text of a carved candidate: its diagnostics joined with
/// `; `, or a fixed sentence when it has none.
pub open spec fn carve_reason_text(d: Seq<Seq<char>>) -> Seq<char> {
    if d.len() == 0 {
        "Signature-based carving candidate."@
    } else {
        joined_strings(d)
    }
}

fn join_strings(v: &Vec<String>) -> (r: Vec<char>)
    ensures
        r@ == joined_strings(strings_view(v@)),
{
    let ghost sv = strings_view(v@);
    let mut out: Vec<char> = Vec::new();
    let mut k: usize = 0;
    while k < v.len()
        invariant
            sv == strings_view(v@),
            k <= v@.len(),
            out@ == joined_strings(sv.take(k as int)),
        decreases v@.len() - k,
    {
        let ghost before = out@;
        assert(sv.take(k + 1).drop_last() =~= sv.take(k as int));
        if k > 0 {
            push_str(&mut out, "; ");
        }
        push_str(&mut out, v[k].as_str());
        proof {
            if k == 0 {
                assert(before =~= Seq::<char>::empty());
                assert(out@ =~= sv.take(1)[0]);
            } else {
                assert(out@ =~= before + "; "@ + sv[k as int]);
            }
        }
        k = k + 1;
    }
    assert(sv.take(sv.len() as int) =~= sv);
    out
}

/// The record of a carved candidate: offsets, the partial flag, the tier
/// code, and as text fields the format's extension, a suggested file name
/// and the confidence reason.
pub fn encode_carve_candidate(candidate: &CarvedCandidate) -> (r: FrCarveCandidate)
    ensures
        r.offset_bytes == candidate.offset,
        r.length_bytes == candidate.length,
        r.flags == if candidate.partial { CARVE_CANDIDATE_FLAG_PARTIAL } else { 0 },
        r.confidence_tier == tier_code(candidate.confidence),
        r.format@ == c_field(encode_utf8(extension_of(candidate.format)), 16),
        r.suggested_name@ == c_field(
            encode_utf8(carve_file_name(candidate.offset as nat, extension_of(candidate.format))),
            128,
        ),
        r.confidence_reason@ == c_field(encode_utf8(carve_reason_text(strings_view(candidate.diagnostics@))), 256),
{
    let extension = default_extension(candidate.format);
    let mut name: Vec<char> = Vec::new();
    push_str(&mut name, "carve_");
    push_chars(&mut name, &zero_pad(hex_min_chars(candidate.offset as u64, true), 16));
    push_str(&mut name, ".");
    push_str(&mut name, extension);
    let name_text = string_from_chars(&name);
    let reason = if candidate.diagnostics.len() == 0 {
        let fixed = "Signature-based carving candidate.";
        fixed.to_owned()
    } else {
        string_from_chars(&join_strings(&candidate.diagnostics))
    };
    FrCarveCandidate {
        offset_bytes: candidate.offset as u64,
        length_bytes: candidate.length as u64,
        flags: if candidate.partial {
            CARVE_CANDIDATE_FLAG_PARTIAL
        } else {
            0
        },
        confidence_tier: confidence_tier_code(candidate.confidence),
        format: utf8_field::<16>(extension),
        suggested_name: utf8_field::<128>(name_text.as_str()),
        confidence_reason: utf8_field::<256>(reason.as_str()),
    }
}

fn candidate_reason(c: &QuickScanCandidate) -> (r: (String, ConfidenceTier))
    ensures
        r.0@ == reason_text(
            candidate_score(c@) as nat,
            score_reasons(c@.evidence_sources, c@.name is Some && c@.reconstructed_path is Some, candidate_partial(c@)),
        ),
        r.1 == tier_of(candidate_score(c@)),
{
    let partial = c.name.is_none() || c.reconstructed_path.is_none() || c.has_named_data_streams
        || c.has_compressed_data || c.has_encrypted_data;
    let mut id: Vec<char> = Vec::new();
    push_str(&mut id, "mft-");
    push_chars(&mut id, &decimal_chars(c.record_number as u64));
    let mut evidence: Vec<EvidenceSource> = Vec::new();
    let mut k: usize = 0;
    while k < c.evidence_sources.len()
        invariant
            k <= c.evidence_sources@.len(),
            evidence@ == c.evidence_sources@.take(k as int),
        decreases c.evidence_sources@.len() - k,
    {
        evidence.push(c.evidence_sources[k]);
        assert(c.evidence_sources@.take(k + 1) =~= c.evidence_sources@.take(k as int).push(c.evidence_sources@[k as int]));
        k = k + 1;
    }
    assert(c.evidence_sources@.take(c.evidence_sources@.len() as int) =~= c.evidence_sources@);
    let candidate = RecoveryCandidate {
        id: string_from_chars(&id),
        original_name: clone_text(&c.name),
        original_path: clone_text(&c.reconstructed_path),
        recovered_path: None,
        size_bytes: 0,
        evidence,
        confidence: ConfidenceTier::Medium,
        partial,
    };
    let scored = score_candidate_with_reasons(&candidate);
    let mut reason: Vec<char> = Vec::new();
    push_str(&mut reason, "Score ");
    push_chars(&mut reason, &decimal_chars(scored.score as u64));
    if scored.reasons.len() == 0 {
        push_str(&mut reason, ".");
    } else {
        push_str(&mut reason, ". ");
        push_chars(&mut reason, &join_reasons(&scored.reasons));
    }
    (string_from_chars(&reason), scored.tier)
}

fn candidate_flags_of(c: &QuickScanCandidate) -> (flags: u32)
    ensures
        flags == candidate_flags(c@),
{
    let mut flags: u32 = 0;
    flags = flags | if c.in_use { CANDIDATE_FLAG_IN_USE } else { 0 };
    flags = flags | if c.deleted { CANDIDATE_FLAG_DELETED } else { 0 };
    flags = flags | if c.is_directory { CANDIDATE_FLAG_DIRECTORY } else { 0 };
    flags = flags | if c.has_non_resident_data { CANDIDATE_FLAG_NON_RESIDENT_DATA } else { 0 };
    flags = flags | if c.name.is_some() { CANDIDATE_FLAG_HAS_NAME } else { 0 };
    flags = flags | if c.reconstructed_path.is_some() { CANDIDATE_FLAG_HAS_PATH } else { 0 };
    flags = flags | if c.has_named_data_streams { CANDIDATE_FLAG_HAS_NAMED_DATA_STREAM } else { 0 };
    flags = flags | if c.has_compressed_data { CANDIDATE_FLAG_COMPRESSED } else { 0 };
    flags = flags | if c.has_sparse_data { CANDIDATE_FLAG_SPARSE } else { 0 };
    flags = flags | if c.has_encrypted_data { CANDIDATE_FLAG_ENCRYPTED } else { 0 };
    let ghost state = flags;
    let mut e: usize = 0;
    while e < c.evidence_sources.len()
        invariant
            e <= c.evidence_sources@.len(),
            flags == with_evidence_bits(state, c.evidence_sources@.take(e as int)),
        decreases c.evidence_sources@.len() - e,
    {
        assert(c.evidence_sources@.take(e + 1).drop_last() =~= c.evidence_sources@.take(e as int));
        let bit = match c.evidence_sources[e] {
            EvidenceSource::Mft => CANDIDATE_FLAG_EVIDENCE_MFT,
            EvidenceSource::DirectoryIndex => CANDIDATE_FLAG_EVIDENCE_DIRECTORY_INDEX,
            EvidenceSource::Usn => CANDIDATE_FLAG_EVIDENCE_USN,
            EvidenceSource::Vss => CANDIDATE_FLAG_EVIDENCE_VSS,
            EvidenceSource::Carve => CANDIDATE_FLAG_EVIDENCE_CARVE,
        };
        flags = flags | bit;
        e = e + 1;
    }
    assert(c.evidence_sources@.take(c.evidence_sources@.len() as int) =~= c.evidence_sources@);
    flags
}

/// The record of a quick-scan candidate, scored: flags, parent, confidence
/// tier code and reason text, name and path as NUL-terminated UTF-8; the
/// fields that the quick scan does not fill are 0.
pub fn encode_quick_scan_candidate(c: &QuickScanCandidate) -> (r: FrNtfsQuickScanCandidate)
    ensures
        r.record_number == c.record_number,
        r.flags == candidate_flags(c@),
        r.parent_record_number == match c.parent_record_number {
            Some(p) => p,
            None => 0,
        },
        r.confidence_tier == tier_code(tier_of(candidate_score(c@))),
        r._reserved0 == 0 && r._reserved1 == 0,
        r.data_size_bytes == 0 && r.allocated_size_bytes == 0 && r.file_attributes == 0,
        r.created_filetime_utc == 0 && r.modified_filetime_utc == 0,
        r.mft_modified_filetime_utc == 0 && r.accessed_filetime_utc == 0,
        r.name@ == c_field(encode_utf8(text_or_empty(c@.name)), 128),
        r.reconstructed_path@ == c_field(encode_utf8(text_or_empty(c@.reconstructed_path)), 256),
        r.confidence_reason@ == c_field(
            encode_utf8(
                reason_text(
                    candidate_score(c@) as nat,
                    score_reasons(c@.evidence_sources, c@.name is Some && c@.reconstructed_path is Some, candidate_partial(c@)),
                ),
            ),
            256,
        ),
{
    let (reason_string, tier) = candidate_reason(c);
    let flags = candidate_flags_of(c);
    let reason_field = utf8_field::<256>(reason_string.as_str());
    FrNtfsQuickScanCandidate {
        record_number: c.record_number,
        flags,
        parent_record_number: match c.parent_record_number {
            Some(p) => p,
            None => 0,
        },
        confidence_tier: confidence_tier_code(tier),
        _reserved0: 0,
        data_size_bytes: 0,
        allocated_size_bytes: 0,
        file_attributes: 0,
        _reserved1: 0,
        created_filetime_utc: 0,
        modified_filetime_utc: 0,
        mft_modified_filetime_utc: 0,
        accessed_filetime_utc: 0,
        name: text_field::<128>(&c.name),
        reconstructed_path: text_field::<256>(&c.reconstructed_path),
        confidence_reason: reason_field,
    }
}

// ---------------------------------------------------------------------------
// File names for recovered streams
// ---------------------------------------------------------------------------

/// A control character (`char::is_control`): C0, DEL and C1.
pub open spec fn is_control_char(c: char) -> bool {
    (c as u32) <= 0x1F || (0x7F <= (c as u32) && (c as u32) <= 0x9F)
}

/// A character that a Windows path component cannot hold.
pub open spec fn invalid_component_char(c: char) -> bool {
    is_control_char(c) || c == '<' || c == '>' || c == ':' || c == '"' || c == '/' || c == '\\' || c == '|'
        || c == '?' || c == '*'
}

/// A device name that Windows reserves (`CON`, `PRN`, `AUX`, `NUL`,
/// `COM1`..`COM9`, `LPT1`..`LPT9`), compared without ASCII case.
pub open spec fn reserved_name(v: Seq<char>) -> bool {
    let u = ascii_upper(v);
    ||| u == seq!['C', 'O', 'N']
    ||| u == seq!['P', 'R', 'N']
    ||| u == seq!['A', 'U', 'X']
    ||| u == seq!['N', 'U', 'L']
    ||| (u.len() == 4 && (u.take(3) == seq!['C', 'O', 'M'] || u.take(3) == seq!['L', 'P', 'T']) && '1' <= u[3]
        <= '9')
}

/// `stream`.
pub open spec fn stream_word() -> Seq<char> {
    seq!['s', 't', 'r', 'e', 'a', 'm']
}

/// A path component made from `raw`: invalid characters become `_`, white
/// space and dots are trimmed, an empty result becomes `stream`, and a
/// reserved device name gets a `_` in front.
pub open spec fn sanitized_component(raw: Seq<char>) -> Seq<char> {
    let mapped = Seq::new(raw.len(), |i: int| if invalid_component_char(raw[i]) { '_' } else { raw[i] });
    let trimmed = trim_dots(trim_ws(mapped));
    let base = if trimmed.len() == 0 {
        stream_word()
    } else {
        trimmed
    };
    if reserved_name(base) {
        seq!['_'] + base
    } else {
        base
    }
}

/// A sanitized component is never empty, holds no character that Windows
/// refuses in a path component, and is not a reserved device name.
pub proof fn law_sanitized_component_is_valid(raw: Seq<char>)
    ensures
        sanitized_component(raw).len() > 0,
        forall|k: int|
            0 <= k < sanitized_component(raw).len() ==> !invalid_component_char(#[trigger] sanitized_component(raw)[k]),
        !reserved_name(sanitized_component(raw)),
{
    let mapped = Seq::new(raw.len(), |i: int| if invalid_component_char(raw[i]) { '_' } else { raw[i] });
    let ws = trim_ws(mapped);
    let trimmed = trim_dots(ws);
    lemma_trim_with_keeps(mapped, |c: char| is_ws(c));
    lemma_trim_with_keeps(ws, |c: char| is_dot(c));
    let base = if trimmed.len() == 0 {
        stream_word()
    } else {
        trimmed
    };
    assert forall|k: int| 0 <= k < base.len() implies !invalid_component_char(#[trigger] base[k]) by {
        if trimmed.len() != 0 {
            assert(ws.contains(trimmed[k]));
            let m = choose|m: int| 0 <= m < ws.len() && ws[m] == trimmed[k];
            assert(mapped.contains(ws[m]));
        }
    }
    let r = sanitized_component(raw);
    if reserved_name(base) {
        assert(r == seq!['_'] + base);
        assert(ascii_upper(r)[0] == '_');
        assert forall|k: int| 0 <= k < r.len() implies !invalid_component_char(#[trigger] r[k]) by {
            if k > 0 {
                assert(r[k] == base[k - 1]);
            }
        }
        let u = ascii_upper(r);
        assert(u != seq!['C', 'O', 'N'] && u != seq!['P', 'R', 'N'] && u != seq!['A', 'U', 'X'] && u != seq![
            'N',
            'U',
            'L',
        ]) by {
            assert(seq!['C', 'O', 'N'][0] == 'C');
            assert(seq!['P', 'R', 'N'][0] == 'P');
            assert(seq!['A', 'U', 'X'][0] == 'A');
            assert(seq!['N', 'U', 'L'][0] == 'N');
        }
        if u.len() == 4 {
            assert(u.take(3)[0] == '_');
        }
        assert(seq!['C', 'O', 'M'][0] == 'C');
        assert(seq!['L', 'P', 'T'][0] == 'L');
    }
}

fn reserved_chars(v: &Vec<char>) -> (b: bool)
    ensures
        b == reserved_name(v@),
{
    let n = v.len();
    let mut u: Vec<char> = Vec::new();
    let mut k: usize = 0;
    while k < n
        invariant
            n == v@.len(),
            k <= n,
            u@ == ascii_upper(v@.take(k as int)),
        decreases n - k,
    {
        u.push(ascii_upper_of(v[k]));
        assert(u@ =~= ascii_upper(v@.take(k + 1)));
        k = k + 1;
    }
    assert(v@.take(n as int) =~= v@);
    let ghost uv = u@;
    let b = if n == 3 {
        (u[0] == 'C' && u[1] == 'O' && u[2] == 'N') || (u[0] == 'P' && u[1] == 'R' && u[2] == 'N') || (u[0] == 'A'
            && u[1] == 'U' && u[2] == 'X') || (u[0] == 'N' && u[1] == 'U' && u[2] == 'L')
    } else if n == 4 {
        ((u[0] == 'C' && u[1] == 'O' && u[2] == 'M') || (u[0] == 'L' && u[1] == 'P' && u[2] == 'T')) && '1' <= u[3]
            && u[3] <= '9'
    } else {
        false
    };
    proof {
        if n == 3 {
            assert(uv == seq!['C', 'O', 'N'] <==> (uv[0] == 'C' && uv[1] == 'O' && uv[2] == 'N')) by {
                if uv[0] == 'C' && uv[1] == 'O' && uv[2] == 'N' {
                    assert(uv =~= seq!['C', 'O', 'N']);
                }
            }
            assert(uv == seq!['P', 'R', 'N'] <==> (uv[0] == 'P' && uv[1] == 'R' && uv[2] == 'N')) by {
                if uv[0] == 'P' && uv[1] == 'R' && uv[2] == 'N' {
                    assert(uv =~= seq!['P', 'R', 'N']);
                }
            }
            assert(uv == seq!['A', 'U', 'X'] <==> (uv[0] == 'A' && uv[1] == 'U' && uv[2] == 'X')) by {
                if uv[0] == 'A' && uv[1] == 'U' && uv[2] == 'X' {
                    assert(uv =~= seq!['A', 'U', 'X']);
                }
            }
            assert(uv == seq!['N', 'U', 'L'] <==> (uv[0] == 'N' && uv[1] == 'U' && uv[2] == 'L')) by {
                if uv[0] == 'N' && uv[1] == 'U' && uv[2] == 'L' {
                    assert(uv =~= seq!['N', 'U', 'L']);
                }
            }
        } else if n == 4 {
            assert(uv.take(3) == seq!['C', 'O', 'M'] <==> (uv[0] == 'C' && uv[1] == 'O' && uv[2] == 'M')) by {
                if uv[0] == 'C' && uv[1] == 'O' && uv[2] == 'M' {
                    assert(uv.take(3) =~= seq!['C', 'O', 'M']);
                }
                if uv.take(3) == seq!['C', 'O', 'M'] {
                    assert(uv.take(3)[0] == uv[0] && uv.take(3)[1] == uv[1] && uv.take(3)[2] == uv[2]);
                }
            }
            assert(uv.take(3) == seq!['L', 'P', 'T'] <==> (uv[0] == 'L' && uv[1] == 'P' && uv[2] == 'T')) by {
                if uv[0] == 'L' && uv[1] == 'P' && uv[2] == 'T' {
                    assert(uv.take(3) =~= seq!['L', 'P', 'T']);
                }
                if uv.take(3) == seq!['L', 'P', 'T'] {
                    assert(uv.take(3)[0] == uv[0] && uv.take(3)[1] == uv[1] && uv.take(3)[2] == uv[2]);
                }
            }
        }
    }
    b
}

/// Whether `value` is a device name that Windows reserves.
pub fn is_windows_reserved_name(value: &str) -> (b: bool)
    ensures
        b == reserved_name(value@),
{
    reserved_chars(&chars_of(value))
}

fn sanitize_component_chars(raw: &Vec<char>) -> (r: Vec<char>)
    ensures
        r@ == sanitized_component(raw@),
{
    let n = raw.len();
    let mut mapped: Vec<char> = Vec::new();
    let mut k: usize = 0;
    while k < n
        invariant
            n == raw@.len(),
            k <= n,
            mapped@.len() == k,
            forall|m: int| 0 <= m < k ==> mapped@[m] == (if invalid_component_char(raw@[m]) { '_' } else { raw@[m] }),
        decreases n - k,
    {
        let ch = raw[k];
        let v = ch as u32;
        let invalid = v <= 0x1F || (0x7F <= v && v <= 0x9F) || ch == '<' || ch == '>' || ch == ':' || ch == '"'
            || ch == '/' || ch == '\\' || ch == '|' || ch == '?' || ch == '*';
        mapped.push(if invalid { '_' } else { ch });
        k = k + 1;
    }
    assert(mapped@ =~= Seq::new(raw@.len(), |i: int| if invalid_component_char(raw@[i]) { '_' } else { raw@[i] }));
    let trimmed = trim_dot_chars(&trim_whitespace(&mapped));
    let base = if trimmed.len() == 0 {
        let w = vec!['s', 't', 'r', 'e', 'a', 'm'];
        assert(w@ =~= stream_word());
        w
    } else {
        trimmed
    };
    if reserved_chars(&base) {
        let mut r = vec!['_'];
        push_chars(&mut r, &base);
        assert(r@ =~= seq!['_'] + base@);
        r
    } else {
        base
    }
}

/// A Windows path component made from `raw` (see `sanitized_component`).
pub fn sanitize_windows_path_component(raw: &str) -> (s: String)
    ensures
        s@ == sanitized_component(raw@),
{
    string_from_chars(&sanitize_component_chars(&chars_of(raw)))
}

/// Index of the last `\` or `/` among `p[..n]`, or -1.
pub open spec fn last_separator(p: Seq<char>, n: int) -> int
    decreases n,
{
    if n <= 0 {
        -1
    } else if p[n - 1] == '\\' || p[n - 1] == '/' {
        n - 1
    } else {
        last_separator(p, n - 1)
    }
}

/// `recovered`.
pub open spec fn recovered_word() -> Seq<char> {
    seq!['r', 'e', 'c', 'o', 'v', 'e', 'r', 'e', 'd']
}

/// `.ads-`.
pub open spec fn stream_marker() -> Seq<char> {
    seq!['.', 'a', 'd', 's', '-']
}

/// The output path for a named stream: the output path's file name (or
/// `recovered` when it has none) followed by `.ads-` and the sanitized
/// stream name, with `-N` for the N-th stream of that name (N > 1). The
/// path is split at its last `\` or `/`.
pub open spec fn stream_output_path(output: Seq<char>, stream: Seq<char>, occurrence: nat) -> Seq<char> {
    let cut = last_separator(output, output.len() as int) + 1;
    let name = output.skip(cut);
    let file = if name.len() == 0 {
        recovered_word()
    } else {
        name
    };
    let s = sanitized_component(stream);
    let suffix = if occurrence == 1 {
        stream_marker() + s
    } else {
        stream_marker() + s + seq!['-'] + decimal(occurrence)
    };
    output.take(cut) + file + suffix
}

/// Index of the first entry of `seen` with key `key`.
pub open spec fn key_index(seen: Seq<(Seq<char>, u32)>, key: Seq<char>, from: int) -> Option<int>
    decreases seen.len() - from,
{
    if from < 0 || from >= seen.len() {
        None
    } else if seen[from].0 == key {
        Some(from)
    } else {
        key_index(seen, key, from + 1)
    }
}

/// The stream-name counters with their keys as characters.
pub open spec fn counter_view(v: Seq<(String, u32)>) -> Seq<(Seq<char>, u32)> {
    Seq::new(v.len(), |i: int| (v[i].0@, v[i].1))
}

/// `n + 1`, saturating.
pub open spec fn bumped(n: u32) -> u32 {
    if n == u32::MAX {
        n
    } else {
        (n + 1) as u32
    }
}

proof fn lemma_key_index_bounds(seen: Seq<(Seq<char>, u32)>, key: Seq<char>, from: int)
    ensures
        key_index(seen, key, from) matches Some(j) ==> from <= j < seen.len() && seen[j].0 == key,
    decreases seen.len() - from,
{
    if from >= 0 && from < seen.len() && seen[from].0 != key {
        lemma_key_index_bounds(seen, key, from + 1);
    }
}

fn find_key(seen: &Vec<(String, u32)>, key: &Vec<char>) -> (r: Option<usize>)
    ensures
        match (r, key_index(counter_view(seen@), key@, 0)) {
            (Some(i), Some(j)) => i == j,
            (None, None) => true,
            _ => false,
        },
        r matches Some(i) ==> i < seen@.len(),
{
    let ghost v = counter_view(seen@);
    let n = seen.len();
    let mut j: usize = 0;
    while j < n
        invariant
            n == seen@.len() == v.len(),
            v == counter_view(seen@),
            j <= n,
            key_index(v, key@, 0) == key_index(v, key@, j as int),
        decreases n - j,
    {
        let entry_key = chars_of(seen[j].0.as_str());
        assert(v[j as int].0 == seen@[j as int].0@);
        if chars_equal(&entry_key, key) {
            return Some(j);
        }
        j = j + 1;
    }
    None
}

/// The output path of named stream `stream_name` recovered next to
/// `output_path`; `seen_names` counts the streams met so far by their
/// sanitized, ASCII lower-cased names, so that repeats get `-2`, `-3`, ...
pub fn build_named_stream_output_path(
    output_path: &str,
    stream_name: &str,
    seen_names: &mut Vec<(String, u32)>,
) -> (r: String)
    ensures
        ({
            let key = ascii_lower(sanitized_component(stream_name@));
            let before = counter_view(old(seen_names)@);
            match key_index(before, key, 0) {
                Some(j) => counter_view(final(seen_names)@) == before.update(j, (key, bumped(before[j].1)))
                    && r@ == stream_output_path(output_path@, stream_name@, bumped(before[j].1) as nat),
                None => counter_view(final(seen_names)@) == before.push((key, 1u32)) && r@ == stream_output_path(
                    output_path@,
                    stream_name@,
                    1,
                ),
            }
        }),
{
    let sanitized = sanitize_component_chars(&chars_of(stream_name));
    let key = ascii_lowercase(&sanitized);
    let ghost before = counter_view(seen_names@);
    let found = find_key(seen_names, &key);
    let occurrence: u32 = match found {
        Some(i) => {
            let prior = seen_names[i].1;
            let next = if prior == u32::MAX {
                prior
            } else {
                prior + 1
            };
            let entry = (string_from_chars(&key), next);
            seen_names.set(i, entry);
            assert(counter_view(seen_names@) =~= before.update(i as int, (key@, next)));
            next
        },
        None => {
            seen_names.push((string_from_chars(&key), 1));
            assert(counter_view(seen_names@) =~= before.push((key@, 1u32)));
            1
        },
    };
    let chars = chars_of(output_path);
    let len = chars.len();
    let mut cut = len;
    while cut > 0 && chars[cut - 1] != '\\' && chars[cut - 1] != '/'
        invariant
            cut <= len,
            len == chars@.len(),
            last_separator(chars@, len as int) == last_separator(chars@, cut as int),
        decreases cut,
    {
        cut = cut - 1;
    }
    let mut out: Vec<char> = Vec::new();
    let mut name: Vec<char> = Vec::new();
    let mut k: usize = 0;
    while k < len
        invariant
            k <= len,
            len == chars@.len(),
            cut <= len,
            out@ == chars@.take(if k < cut { k as int } else { cut as int }),
            name@ == chars@.subrange(cut as int, if k < cut { cut as int } else { k as int }),
        decreases len - k,
    {
        if k < cut {
            out.push(chars[k]);
            assert(chars@.take(k + 1) =~= chars@.take(k as int).push(chars@[k as int]));
        } else {
            name.push(chars[k]);
            assert(chars@.subrange(cut as int, k + 1) =~= chars@.subrange(cut as int, k as int).push(chars@[k as int]));
        }
        k = k + 1;
    }
    assert(name@ =~= chars@.skip(cut as int));
    if name.len() == 0 {
        let w = vec!['r', 'e', 'c', 'o', 'v', 'e', 'r', 'e', 'd'];
        assert(w@ =~= recovered_word());
        push_chars(&mut out, &w);
    } else {
        push_chars(&mut out, &name);
    }
    let marker = vec!['.', 'a', 'd', 's', '-'];
    assert(marker@ =~= stream_marker());
    push_chars(&mut out, &marker);
    push_chars(&mut out, &sanitized);
    if occurrence != 1 {
        out.push('-');
        push_chars(&mut out, &decimal_chars(occurrence as u64));
    }
    proof {
        assert(last_separator(chars@, cut as int) == cut - 1);
    }
    string_from_chars(&out)
}

// ---------------------------------------------------------------------------
// Signature pack metadata
// ---------------------------------------------------------------------------

/// Whether `v` is in increasing `str` order, so with nothing twice.
pub open spec fn strictly_sorted(v: Seq<Seq<char>>) -> bool {
    forall|i: int, j: int| 0 <= i < j < v.len() ==> str_lt(v[i], v[j])
}

/// `v` joined with commas.
pub open spec fn comma_joined(v: Seq<Seq<char>>) -> Seq<char>
    decreases v.len(),
{
    if v.len() == 0 {
        Seq::empty()
    } else if v.len() == 1 {
        v[0]
    } else {
        comma_joined(v.drop_last()) + ","@ + v.last()
    }
}

/// The default extensions of the signature pack's formats, in its order.
pub open spec fn pack_extensions() -> Seq<Seq<char>> {
    pack_formats().map_values(|f: FileFormat| extension_of(f))
}

/// The family flag of a default extension, 0 for an unknown one.
pub open spec fn extension_flag(e: Seq<char>) -> u32 {
    match extension_family(e) {
        Some(family) => family_flag(family),
        None => 0,
    }
}

/// The family flags of the pack's first `k` formats together.
pub open spec fn pack_flags_upto(k: int) -> u32
    decreases k,
{
    if k <= 0 {
        0
    } else {
        pack_flags_upto(k - 1) | extension_flag(extension_of(pack_formats()[k - 1]))
    }
}

/// The character sequences of a list of strings.
pub open spec fn char_views(v: Seq<Vec<char>>) -> Seq<Seq<char>> {
    Seq::new(v.len(), |i: int| v[i]@)
}

/// Puts `e` into the sorted list `v` where it belongs, unless it is there.
fn insert_sorted(v: &mut Vec<Vec<char>>, e: Vec<char>)
    requires
        strictly_sorted(char_views(old(v)@)),
    ensures
        strictly_sorted(char_views(final(v)@)),
        forall|x: Seq<char>| char_views(final(v)@).contains(x) <==> (char_views(old(v)@).contains(x) || x == e@),
{
    let ghost before = char_views(v@);
    let mut j: usize = 0;
    while j < v.len() && chars_lt(&v[j], &e)
        invariant
            j <= v@.len(),
            before == char_views(v@),
            forall|i: int| 0 <= i < j ==> str_lt(before[i], e@),
        decreases v@.len() - j,
    {
        j = j + 1;
    }
    if j < v.len() && chars_equal(&v[j], &e) {
        assert(before[j as int] == e@);
        return;
    }
    let ghost ev = e@;
    v.insert(j, e);
    let ghost after = char_views(v@);
    assert(after =~= before.insert(j as int, ev));
    assert forall|a: int, b: int| 0 <= a < b < after.len() implies str_lt(after[a], after[b]) by {
        if j < before.len() {
            lemma_str_lt_order(before[j as int], ev, ev);
            lemma_str_lt_order(ev, before[j as int], ev);
        }
        if a < j && b == j {
        } else if a < j && b > j {
            lemma_str_lt_order(before[a], ev, before[j as int]);
            lemma_str_lt_order(before[a], before[b - 1], before[b - 1]);
        } else if a == j && b > j {
            lemma_str_lt_order(ev, before[j as int], before[b - 1]);
        } else if a > j {
        }
    }
    assert forall|x: Seq<char>| after.contains(x) <==> (before.contains(x) || x == ev) by {
        if after.contains(x) {
            let k = choose|k: int| 0 <= k < after.len() && after[k] == x;
            if k < j {
                assert(before[k] == x);
            } else if k > j {
                assert(before[k - 1] == x);
            }
        }
        if before.contains(x) {
            let k = choose|k: int| 0 <= k < before.len() && before[k] == x;
            if k < j {
                assert(after[k] == x);
            } else {
                assert(after[k + 1] == x);
            }
        }
        if x == ev {
            assert(after[j as int] == x);
        }
    }
}

/// The strings of `v` joined with commas.
fn join_with_commas(v: &Vec<Vec<char>>) -> (r: Vec<char>)
    ensures
        r@ == comma_joined(char_views(v@)),
{
    let mut r: Vec<char> = Vec::new();
    let mut k: usize = 0;
    while k < v.len()
        invariant
            k <= v@.len(),
            r@ == comma_joined(char_views(v@).take(k as int)),
        decreases v@.len() - k,
    {
        let ghost done = char_views(v@).take(k as int);
        let ghost next = char_views(v@).take(k + 1);
        assert(next.drop_last() =~= done);
        assert(next.last() == v@[k as int]@);
        let ghost before = r@;
        if k > 0 {
            r.push(',');
            proof {
                reveal_strlit(",");
                assert(r@ =~= before + ","@);
            }
        }
        push_chars(&mut r, &v[k]);
        proof {
            if k == 0 {
                assert(r@ =~= next[0]);
            } else {
                assert(r@ =~= comma_joined(done) + ","@ + next.last());
            }
        }
        k = k + 1;
    }
    assert(char_views(v@).take(v@.len() as int) =~= char_views(v@));
    r
}

/// The signature pack's record: its name, version, number of formats, the
/// family flags of their default extensions, and those extensions each
/// once, in increasing order, joined with commas.
pub fn encode_carve_signature_pack_metadata() -> (r: FrCarveSignaturePackMetadata)
    ensures
        r.pack_name@ == c_field(encode_utf8(SIGNATURE_PACK_NAME@), 64),
        r.pack_version@ == c_field(encode_utf8(SIGNATURE_PACK_VERSION@), 32),
        r.format_count == pack_formats().len(),
        r.family_flags == pack_flags_upto(pack_formats().len() as int),
        exists|exts: Seq<Seq<char>>|
            strictly_sorted(exts) && (forall|e: Seq<char>| exts.contains(e) <==> pack_extensions().contains(e))
                && r.formats_csv@ == c_field(encode_utf8(comma_joined(exts)), 512),
{
    let formats = signature_pack_formats();
    let mut family_flags: u32 = 0;
    let mut sorted: Vec<Vec<char>> = Vec::new();
    let mut k: usize = 0;
    while k < formats.len()
        invariant
            formats@ == pack_formats(),
            k <= formats@.len(),
            family_flags == pack_flags_upto(k as int),
            strictly_sorted(char_views(sorted@)),
            forall|e: Seq<char>|
                char_views(sorted@).contains(e) <==> pack_extensions().take(k as int).contains(e),
        decreases formats@.len() - k,
    {
        let ext = default_extension(formats[k]);
        family_flags = family_flags | carve_family_flag_for_extension(ext);
        let ghost old_sorted = char_views(sorted@);
        insert_sorted(&mut sorted, chars_of(ext));
        proof {
            let prev = pack_extensions().take(k as int);
            let cur = pack_extensions().take(k + 1);
            assert(cur =~= prev.push(extension_of(pack_formats()[k as int])));
            assert forall|e: Seq<char>| cur.contains(e) <==> (prev.contains(e) || e == ext@) by {
                if cur.contains(e) {
                    let i = choose|i: int| 0 <= i < cur.len() && cur[i] == e;
                    if i < k {
                        assert(prev[i] == e);
                    }
                }
                if prev.contains(e) {
                    let i = choose|i: int| 0 <= i < prev.len() && prev[i] == e;
                    assert(cur[i] == e);
                }
                if e == ext@ {
                    assert(cur[k as int] == e);
                }
            }
        }
        k = k + 1;
    }
    assert(pack_extensions().take(formats@.len() as int) =~= pack_extensions());
    let csv = string_from_chars(&join_with_commas(&sorted));
    FrCarveSignaturePackMetadata {
        pack_name: utf8_field::<64>(SIGNATURE_PACK_NAME),
        pack_version: utf8_field::<32>(SIGNATURE_PACK_VERSION),
        format_count: formats.len() as u32,
        family_flags,
        formats_csv: utf8_field::<512>(csv.as_str()),
    }
}

// ---------------------------------------------------------------------------
// Shadow copies and XFS candidates
// ---------------------------------------------------------------------------

/// A volume shadow copy as the snapshot lister reports it.
#[derive(Debug, Clone, PartialEq, Eq)]
pub struct VssSnapshot {
    pub snapshot_id: String,
    pub volume_name: Option<String>,
    pub device_object: String,
    pub install_time_utc: Option<String>,
    pub snapshot_path: String,
}

/// The text of an optional string, empty when there is none.
fn text_or_blank(o: &Option<String>) -> (r: &str)
    ensures
        r@ == text_or_empty(text_of(*o)),
{
    match o {
        Some(s) => s.as_str(),
        None => {
            proof {
                reveal_strlit("");
            }
            ""
        },
    }
}

/// The shadow copy's record: each text as NUL-terminated UTF-8, an absent
/// volume name or install time left zero.
pub fn encode_vss_snapshot(snapshot: &VssSnapshot) -> (r: FrVssSnapshot)
    ensures
        r.snapshot_id@ == c_field(encode_utf8(snapshot.snapshot_id@), 96),
        r.volume_name@ == c_field(encode_utf8(text_or_empty(text_of(snapshot.volume_name))), 260),
        r.device_object@ == c_field(encode_utf8(snapshot.device_object@), 260),
        r.install_time_utc@ == c_field(encode_utf8(text_or_empty(text_of(snapshot.install_time_utc))), 64),
        r.snapshot_path@ == c_field(encode_utf8(snapshot.snapshot_path@), 260),
{
    FrVssSnapshot {
        snapshot_id: utf8_field::<96>(snapshot.snapshot_id.as_str()),
        volume_name: utf8_field::<260>(text_or_blank(&snapshot.volume_name)),
        device_object: utf8_field::<260>(snapshot.device_object.as_str()),
        install_time_utc: utf8_field::<64>(text_or_blank(&snapshot.install_time_utc)),
        snapshot_path: utf8_field::<260>(snapshot.snapshot_path.as_str()),
    }
}

/// A deleted XFS inode as the XFS scanner reports it.
#[derive(Debug, Clone, PartialEq, Eq)]
pub struct XfsDeletedCandidate {
    pub inode_number: u64,
    pub size_bytes: u64,
    pub name: String,
    pub path: String,
    pub is_directory: bool,
}

/// The XFS candidate record.
pub fn encode_xfs_deleted_candidate(c: &XfsDeletedCandidate) -> (r: FrXfsDeletedCandidate)
    ensures
        r.flags == deleted_flags(c.is_directory),
        r.inode_number == c.inode_number,
        r.size_bytes == c.size_bytes,
        r.name@ == c_field(encode_utf8(c.name@), 128),
        r.reconstructed_path@ == c_field(encode_utf8(c.path@), 256),
{
    FrXfsDeletedCandidate {
        flags: deleted_flags_of(c.is_directory),
        inode_number: c.inode_number,
        size_bytes: c.size_bytes,
        name: utf8_field::<128>(c.name.as_str()),
        reconstructed_path: utf8_field::<256>(c.path.as_str()),
    }
}

} // verus!
