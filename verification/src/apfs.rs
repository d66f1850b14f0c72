//! APFS container superblock parsing and deleted-metadata tombstone scan.
use vstd::prelude::*;
use crate::bytes::{is_pow2, is_power_of_two, le32, le64, read_u32_le, read_u64_le};
use crate::text::string_from_chars;
use crate::tombstone::{entry_views, scan_tombstones, tombstone_scan, TombstoneEntry, TombstoneView};
use crate::types::{ModuleDescriptor, RecoverySourceKind};

verus! {

pub const APFS_SUPERBLOCK_SIZE: usize = 4096;
pub const APFS_MAGIC_OFFSET: usize = 0x20;
pub const APFS_BLOCK_SIZE_OFFSET: usize = 0x24;
pub const APFS_BLOCK_COUNT_OFFSET: usize = 0x28;
pub const APFS_FEATURES_OFFSET: usize = 0x30;
pub const APFS_INCOMPAT_FEATURES_OFFSET: usize = 0x40;
pub const APFS_CONTAINER_OID_OFFSET: usize = 0x08;
/// `"NXSB"` read little-endian.
pub const APFS_MAGIC_NXSB: u32 = 0x4253_584E;
/// `"APFSDEL\0"`.
pub const APFS_TOMBSTONE_MARKER: [u8; 8] = [0x41, 0x50, 0x46, 0x53, 0x44, 0x45, 0x4C, 0x00];
pub const APFS_TOMBSTONE_NAME_CAPACITY: usize = 96;
pub const APFS_TOMBSTONE_PATH_CAPACITY: usize = 192;
pub const APFS_TOMBSTONE_HEADER_SIZE: usize = 28;
pub const APFS_TOMBSTONE_RECORD_SIZE: usize = 316;

/// Identity of the APFS module.
pub fn descriptor() -> (d: ModuleDescriptor)
    ensures
        d.name == "fr-apfs",
        d.purpose == "APFS container parser and deleted metadata tombstone seam.",
        d.source_kind == RecoverySourceKind::ImageFile,
{
    ModuleDescriptor {
        name: "fr-apfs",
        purpose: "APFS container parser and deleted metadata tombstone seam.",
        source_kind: RecoverySourceKind::ImageFile,
    }
}

/// Parsed APFS container superblock.
#[derive(Debug, Clone, PartialEq, Eq, Structural)]
pub struct ApfsContainerSuperblock {
    pub container_object_id: u64,
    pub block_size_bytes: u32,
    pub block_count: u64,
    pub features: u64,
    pub incompat_features: u64,
}

/// Why a container superblock was refused.
#[derive(Debug, Clone, PartialEq, Eq, Structural)]
pub enum ContainerParseError {
    BufferTooSmall { expected: usize, actual: usize },
    InvalidMagic(u32),
    InvalidBlockSize(u32),
    InvalidBlockCount(u64),
}

/// A deleted file or folder found in a tombstone.
#[derive(Debug, Clone)]
pub struct ApfsDeletedCandidate {
    pub cnid: u64,
    pub size_bytes: u64,
    pub name: String,
    pub path: String,
    pub is_directory: bool,
}

impl View for ApfsDeletedCandidate {
    type V = TombstoneView;

    open spec fn view(&self) -> TombstoneView {
        TombstoneView {
            id: self.cnid,
            size_bytes: self.size_bytes,
            name: self.name@,
            path: self.path@,
            is_directory: self.is_directory,
        }
    }
}

/// Why a scan failed.
#[derive(Debug, Clone, PartialEq, Eq, Structural)]
pub enum ScanError {
    Container(ContainerParseError),
}

/// Result of parsing the container superblock of `b`.
pub open spec fn container_of(b: Seq<u8>) -> Result<ApfsContainerSuperblock, ContainerParseError> {
    let bs = le32(b, 0x24);
    if b.len() < 4096 {
        Err(ContainerParseError::BufferTooSmall { expected: 4096, actual: b.len() as usize })
    } else if le32(b, 0x20) != 0x4253_584E {
        Err(ContainerParseError::InvalidMagic(le32(b, 0x20) as u32))
    } else if bs < 4096 || bs > 65536 || !is_pow2(bs as nat) {
        Err(ContainerParseError::InvalidBlockSize(bs as u32))
    } else if le64(b, 0x28) == 0 {
        Err(ContainerParseError::InvalidBlockCount(0))
    } else {
        Ok(
            ApfsContainerSuperblock {
                container_object_id: le64(b, 0x08) as u64,
                block_size_bytes: bs as u32,
                block_count: le64(b, 0x28) as u64,
                features: le64(b, 0x30) as u64,
                incompat_features: le64(b, 0x40) as u64,
            },
        )
    }
}

/// Parses the container superblock at the start of `image`.
pub fn parse_container_superblock(image: &[u8]) -> (r: Result<ApfsContainerSuperblock, ContainerParseError>)
    ensures
        r == container_of(image@),
{
    if image.len() < APFS_SUPERBLOCK_SIZE {
        return Err(ContainerParseError::BufferTooSmall { expected: APFS_SUPERBLOCK_SIZE, actual: image.len() });
    }
    let magic = read_u32_le(image, APFS_MAGIC_OFFSET);
    if magic != APFS_MAGIC_NXSB {
        return Err(ContainerParseError::InvalidMagic(magic));
    }
    let block_size_bytes = read_u32_le(image, APFS_BLOCK_SIZE_OFFSET);
    if block_size_bytes < 4096 || block_size_bytes > 65_536 || !is_power_of_two(block_size_bytes as u64) {
        return Err(ContainerParseError::InvalidBlockSize(block_size_bytes));
    }
    let block_count = read_u64_le(image, APFS_BLOCK_COUNT_OFFSET);
    if block_count == 0 {
        return Err(ContainerParseError::InvalidBlockCount(block_count));
    }
    Ok(ApfsContainerSuperblock {
        container_object_id: read_u64_le(image, APFS_CONTAINER_OID_OFFSET),
        block_size_bytes,
        block_count,
        features: read_u64_le(image, APFS_FEATURES_OFFSET),
        incompat_features: read_u64_le(image, APFS_INCOMPAT_FEATURES_OFFSET),
    })
}

/// The views of candidates.
pub open spec fn candidate_views(v: Seq<ApfsDeletedCandidate>) -> Seq<TombstoneView> {
    Seq::new(v.len(), |i: int| v[i]@)
}

/// The tombstones of `image`, at most `max_entries`, deduplicated on id and path.
pub open spec fn apfs_tombstones(image: Seq<u8>, max_entries: int) -> Seq<TombstoneView> {
    tombstone_scan(image, APFS_TOMBSTONE_MARKER@, true, max_entries, 0, Seq::empty())
}

fn to_candidates(entries: Vec<TombstoneEntry>) -> (out: Vec<ApfsDeletedCandidate>)
    ensures
        candidate_views(out@) == entry_views(entries@),
{
    let mut out: Vec<ApfsDeletedCandidate> = Vec::new();
    let mut k: usize = 0;
    while k < entries.len()
        invariant
            k <= entries@.len(),
            candidate_views(out@) =~= entry_views(entries@).subrange(0, k as int),
        decreases entries@.len() - k,
    {
        let e = &entries[k];
        let ghost old_out = out@;
        out.push(ApfsDeletedCandidate {
            cnid: e.id,
            size_bytes: e.size_bytes,
            name: string_from_chars(&e.name),
            path: string_from_chars(&e.path),
            is_directory: e.is_directory,
        });
        assert(candidate_views(out@) =~= candidate_views(old_out).push(entries@[k as int]@));
        assert(entry_views(entries@).subrange(0, k + 1) =~= entry_views(entries@).subrange(0, k as int).push(entries@[k as int]@));
        k = k + 1;
    }
    out
}

/// Scans `image` for deleted-entry tombstones (the container is not consulted).
pub fn scan_deleted_candidates_with_container(
    image: &[u8],
    _container: &ApfsContainerSuperblock,
    max_entries: usize,
) -> (out: Vec<ApfsDeletedCandidate>)
    ensures
        candidate_views(out@) == apfs_tombstones(image@, max_entries as int),
{
    if max_entries == 0 || image.len() < APFS_TOMBSTONE_RECORD_SIZE {
        assert(candidate_views(Seq::<ApfsDeletedCandidate>::empty()) =~= Seq::<TombstoneView>::empty());
        return Vec::new();
    }
    let entries = scan_tombstones(image, &APFS_TOMBSTONE_MARKER, true, max_entries);
    to_candidates(entries)
}

/// Parses the container superblock, then scans for tombstones.
pub fn scan_deleted_candidates(image: &[u8], max_entries: usize) -> (r: Result<
    (ApfsContainerSuperblock, Vec<ApfsDeletedCandidate>),
    ScanError,
>)
    ensures
        match (r, container_of(image@)) {
            (Ok((sb, v)), Ok(c)) => sb == c && candidate_views(v@) == apfs_tombstones(
                image@,
                max_entries as int,
            ),
            (Err(ScanError::Container(e)), Err(f)) => e == f,
            _ => false,
        },
{
    let container = match parse_container_superblock(image) {
        Ok(c) => c,
        Err(e) => return Err(ScanError::Container(e)),
    };
    let entries = scan_deleted_candidates_with_container(image, &container, max_entries);
    Ok((container, entries))
}

} // verus!
