//! HFS+ volume header parsing and deleted-metadata tombstone scan.
use vstd::prelude::*;
use crate::bytes::{be16, be32, is_pow2, is_power_of_two, read_u16_be, read_u32_be};
use crate::text::string_from_chars;
use crate::tombstone::{
    entry_views, ids_fit_u32, scan_tombstones, tombstone_scan, TombstoneEntry, TombstoneView,
};
use crate::types::{ModuleDescriptor, RecoverySourceKind};

verus! {

pub const HFS_VOLUME_HEADER_OFFSET: usize = 1024;
pub const HFS_VOLUME_HEADER_SIZE: usize = 512;
pub const HFS_SIGNATURE_OFFSET: usize = 1024;
pub const HFS_VERSION_OFFSET: usize = 1026;
pub const HFS_FILE_COUNT_OFFSET: usize = 1056;
pub const HFS_FOLDER_COUNT_OFFSET: usize = 1060;
pub const HFS_BLOCK_SIZE_OFFSET: usize = 1064;
pub const HFS_TOTAL_BLOCKS_OFFSET: usize = 1068;
/// `"H+"`.
pub const HFS_SIGNATURE_HPLUS: u16 = 0x482B;
/// `"HX"`.
pub const HFS_SIGNATURE_HX: u16 = 0x4858;
/// `"HFSDEL\0\0"`.
pub const HFS_TOMBSTONE_MARKER: [u8; 8] = [0x48, 0x46, 0x53, 0x44, 0x45, 0x4C, 0x00, 0x00];
pub const HFS_TOMBSTONE_NAME_CAPACITY: usize = 96;
pub const HFS_TOMBSTONE_PATH_CAPACITY: usize = 192;
pub const HFS_TOMBSTONE_HEADER_SIZE: usize = 24;
pub const HFS_TOMBSTONE_RECORD_SIZE: usize = 312;

/// Identity of the HFS+ module.
pub fn descriptor() -> (d: ModuleDescriptor)
    ensures
        d.name == "fr-hfs",
        d.purpose == "HFS+ volume-header parser and deleted metadata tombstone seam.",
        d.source_kind == RecoverySourceKind::ImageFile,
{
    ModuleDescriptor {
        name: "fr-hfs",
        purpose: "HFS+ volume-header parser and deleted metadata tombstone seam.",
        source_kind: RecoverySourceKind::ImageFile,
    }
}

/// Parsed HFS+ volume header.
#[derive(Debug, Clone, PartialEq, Eq, Structural)]
pub struct HfsVolumeHeader {
    pub signature: u16,
    pub version: u16,
    pub block_size_bytes: u32,
    pub total_blocks: u32,
    pub file_count: u32,
    pub folder_count: u32,
}

/// Why a volume header was refused.
#[derive(Debug, Clone, PartialEq, Eq, Structural)]
pub enum VolumeHeaderParseError {
    BufferTooSmall { expected: usize, actual: usize },
    InvalidSignature(u16),
    InvalidVersion(u16),
    InvalidBlockSize(u32),
    InvalidBlockCount(u32),
}

/// A deleted file or folder found in a tombstone.
#[derive(Debug, Clone)]
pub struct HfsDeletedCandidate {
    pub cnid: u32,
    pub size_bytes: u64,
    pub name: String,
    pub path: String,
    pub is_directory: bool,
}

impl View for HfsDeletedCandidate {
    type V = TombstoneView;

    open spec fn view(&self) -> TombstoneView {
        TombstoneView {
            id: self.cnid as u64,
            size_bytes: self.size_bytes,
            name: self.name@,
            path: self.path@,
            is_directory: self.is_directory,
        }
    }
}

/// Why a scan failed.
#[derive(Debug, Clone, PartialEq, Eq, Structural)]
pub enum ScanError {
    Header(VolumeHeaderParseError),
}

/// Result of parsing the volume header of `b`.
pub open spec fn volume_header_of(b: Seq<u8>) -> Result<HfsVolumeHeader, VolumeHeaderParseError> {
    let sig = be16(b, 1024);
    let ver = be16(b, 1026);
    let bs = be32(b, 1064);
    if b.len() < 1536 {
        Err(VolumeHeaderParseError::BufferTooSmall { expected: 1536, actual: b.len() as usize })
    } else if sig != 0x482B && sig != 0x4858 {
        Err(VolumeHeaderParseError::InvalidSignature(sig as u16))
    } else if ver != 4 && ver != 5 {
        Err(VolumeHeaderParseError::InvalidVersion(ver as u16))
    } else if bs < 512 || !is_pow2(bs as nat) {
        Err(VolumeHeaderParseError::InvalidBlockSize(bs as u32))
    } else if be32(b, 1068) == 0 {
        Err(VolumeHeaderParseError::InvalidBlockCount(0))
    } else {
        Ok(
            HfsVolumeHeader {
                signature: sig as u16,
                version: ver as u16,
                block_size_bytes: bs as u32,
                total_blocks: be32(b, 1068) as u32,
                file_count: be32(b, 1056) as u32,
                folder_count: be32(b, 1060) as u32,
            },
        )
    }
}

/// Parses the HFS+ volume header of `image`.
pub fn parse_volume_header(image: &[u8]) -> (r: Result<HfsVolumeHeader, VolumeHeaderParseError>)
    ensures
        r == volume_header_of(image@),
{
    let minimum = HFS_VOLUME_HEADER_OFFSET + HFS_VOLUME_HEADER_SIZE;
    if image.len() < minimum {
        return Err(VolumeHeaderParseError::BufferTooSmall { expected: minimum, actual: image.len() });
    }
    let signature = read_u16_be(image, HFS_SIGNATURE_OFFSET);
    if signature != HFS_SIGNATURE_HPLUS && signature != HFS_SIGNATURE_HX {
        return Err(VolumeHeaderParseError::InvalidSignature(signature));
    }
    let version = read_u16_be(image, HFS_VERSION_OFFSET);
    if version != 4 && version != 5 {
        return Err(VolumeHeaderParseError::InvalidVersion(version));
    }
    let block_size_bytes = read_u32_be(image, HFS_BLOCK_SIZE_OFFSET);
    if block_size_bytes < 512 || !is_power_of_two(block_size_bytes as u64) {
        return Err(VolumeHeaderParseError::InvalidBlockSize(block_size_bytes));
    }
    let total_blocks = read_u32_be(image, HFS_TOTAL_BLOCKS_OFFSET);
    if total_blocks == 0 {
        return Err(VolumeHeaderParseError::InvalidBlockCount(total_blocks));
    }
    Ok(HfsVolumeHeader {
        signature,
        version,
        block_size_bytes,
        total_blocks,
        file_count: read_u32_be(image, HFS_FILE_COUNT_OFFSET),
        folder_count: read_u32_be(image, HFS_FOLDER_COUNT_OFFSET),
    })
}

/// The views of candidates.
pub open spec fn candidate_views(v: Seq<HfsDeletedCandidate>) -> Seq<TombstoneView> {
    Seq::new(v.len(), |i: int| v[i]@)
}

fn to_candidates(entries: Vec<TombstoneEntry>) -> (out: Vec<HfsDeletedCandidate>)
    requires
        ids_fit_u32(entry_views(entries@)),
    ensures
        candidate_views(out@) == entry_views(entries@),
{
    let mut out: Vec<HfsDeletedCandidate> = Vec::new();
    let mut k: usize = 0;
    while k < entries.len()
        invariant
            k <= entries@.len(),
            ids_fit_u32(entry_views(entries@)),
            candidate_views(out@) =~= entry_views(entries@).subrange(0, k as int),
        decreases entries@.len() - k,
    {
        let e = &entries[k];
        let ghost old_out = out@;
        assert(entry_views(entries@)[k as int].id <= u32::MAX);
        out.push(HfsDeletedCandidate {
            cnid: e.id as u32,
            size_bytes: e.size_bytes,
            name: string_from_chars(&e.name),
            path: string_from_chars(&e.path),
            is_directory: e.is_directory,
        });
        assert(candidate_views(out@) =~= candidate_views(old_out).push(entries@[k as int]@));
        assert(entry_views(entries@).subrange(0, k + 1) =~= entry_views(entries@).subrange(0, k as int).push(entries@[k as int]@));
        k = k + 1;
    }
    out
}

/// The tombstones of `image`, at most `max_entries`, deduplicated on id and path.
pub open spec fn hfs_tombstones(image: Seq<u8>, max_entries: int) -> Seq<TombstoneView> {
    tombstone_scan(image, HFS_TOMBSTONE_MARKER@, false, max_entries, 0, Seq::empty())
}

/// Scans `image` for deleted-entry tombstones (the header is not consulted).
pub fn scan_deleted_candidates_with_header(
    image: &[u8],
    _header: &HfsVolumeHeader,
    max_entries: usize,
) -> (out: Vec<HfsDeletedCandidate>)
    ensures
        candidate_views(out@) == hfs_tombstones(image@, max_entries as int),
{
    if max_entries == 0 || image.len() < HFS_TOMBSTONE_RECORD_SIZE {
        assert(candidate_views(Seq::<HfsDeletedCandidate>::empty()) =~= Seq::<TombstoneView>::empty());
        return Vec::new();
    }
    let entries = scan_tombstones(image, &HFS_TOMBSTONE_MARKER, false, max_entries);
    to_candidates(entries)
}

/// Parses the volume header, then scans for tombstones.
pub fn scan_deleted_candidates(image: &[u8], max_entries: usize) -> (r: Result<
    (HfsVolumeHeader, Vec<HfsDeletedCandidate>),
    ScanError,
>)
    ensures
        match (r, volume_header_of(image@)) {
            (Ok((h, v)), Ok(g)) => h == g && candidate_views(v@) == hfs_tombstones(
                image@,
                max_entries as int,
            ),
            (Err(ScanError::Header(e)), Err(f)) => e == f,
            _ => false,
        },
{
    let header = match parse_volume_header(image) {
        Ok(h) => h,
        Err(e) => return Err(ScanError::Header(e)),
    };
    let entries = scan_deleted_candidates_with_header(image, &header, max_entries);
    Ok((header, entries))
}

} // verus!
