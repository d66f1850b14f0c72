//! UFS superblock parsing and deleted-metadata tombstone scan.
use vstd::prelude::*;
use crate::bytes::{is_pow2, is_power_of_two, le32, le64, read_u32_le, read_u64_le};
use crate::text::string_from_chars;
use crate::tombstone::{
    entry_views, ids_fit_u32, scan_tombstones, tombstone_scan, TombstoneEntry, TombstoneView,
};
use crate::types::{ModuleDescriptor, RecoverySourceKind};

verus! {

pub const UFS_SUPERBLOCK_OFFSET: usize = 8192;
pub const UFS_SUPERBLOCK_SIZE: usize = 4096;
pub const UFS_MAGIC_OFFSET: usize = 8192 + 0x55C;
pub const UFS_BLOCK_SIZE_OFFSET: usize = 8192 + 0x30;
pub const UFS_FRAGMENT_SIZE_OFFSET: usize = 8192 + 0x34;
pub const UFS_TOTAL_BLOCKS_OFFSET: usize = 8192 + 0x08;
pub const UFS1_MAGIC: u32 = 0x0001_1954;
pub const UFS2_MAGIC: u32 = 0x1954_0119;
/// `"UFSDEL\0\0"`.
pub const UFS_TOMBSTONE_MARKER: [u8; 8] = [0x55, 0x46, 0x53, 0x44, 0x45, 0x4C, 0x00, 0x00];
pub const UFS_TOMBSTONE_NAME_CAPACITY: usize = 96;
pub const UFS_TOMBSTONE_PATH_CAPACITY: usize = 192;
pub const UFS_TOMBSTONE_HEADER_SIZE: usize = 24;
pub const UFS_TOMBSTONE_RECORD_SIZE: usize = 312;

/// Identity of the UFS module.
pub fn descriptor() -> (d: ModuleDescriptor)
    ensures
        d.name == "fr-ufs",
        d.purpose == "UFS superblock parser and deleted metadata seam.",
        d.source_kind == RecoverySourceKind::ImageFile,
{
    ModuleDescriptor {
        name: "fr-ufs",
        purpose: "UFS superblock parser and deleted metadata seam.",
        source_kind: RecoverySourceKind::ImageFile,
    }
}

/// Parsed UFS superblock.
#[derive(Debug, Clone, PartialEq, Eq, Structural)]
pub struct UfsSuperblock {
    pub magic: u32,
    pub block_size_bytes: u32,
    pub fragment_size_bytes: u32,
    pub total_blocks: u64,
}

/// Why a superblock was refused.
#[derive(Debug, Clone, PartialEq, Eq, Structural)]
pub enum SuperblockParseError {
    BufferTooSmall { expected: usize, actual: usize },
    InvalidMagic(u32),
    InvalidBlockSize(u32),
    InvalidFragmentSize(u32),
    InvalidTotalBlocks(u64),
}

/// A deleted file or folder found in a tombstone.
#[derive(Debug, Clone)]
pub struct UfsDeletedCandidate {
    pub inode_number: u32,
    pub size_bytes: u64,
    pub name: String,
    pub path: String,
    pub is_directory: bool,
}

impl View for UfsDeletedCandidate {
    type V = TombstoneView;

    open spec fn view(&self) -> TombstoneView {
        TombstoneView {
            id: self.inode_number as u64,
            size_bytes: self.size_bytes,
            name: self.name@,
            path: self.path@,
            is_directory: self.is_directory,
        }
    }
}

/// Why a scan failed.
#[derive(Debug, Clone, PartialEq, Eq, Structural)]
pub enum ScanError {
    Superblock(SuperblockParseError),
}

/// Result of parsing the superblock of `b`.
pub open spec fn superblock_of(b: Seq<u8>) -> Result<UfsSuperblock, SuperblockParseError> {
    let magic = le32(b, 9564);
    let bs = le32(b, 8240);
    let fs = le32(b, 8244);
    if b.len() < 12288 {
        Err(SuperblockParseError::BufferTooSmall { expected: 12288, actual: b.len() as usize })
    } else if magic != 0x0001_1954 && magic != 0x1954_0119 {
        Err(SuperblockParseError::InvalidMagic(magic as u32))
    } else if bs < 512 || bs > 65536 || !is_pow2(bs as nat) {
        Err(SuperblockParseError::InvalidBlockSize(bs as u32))
    } else if fs == 0 || fs > bs {
        Err(SuperblockParseError::InvalidFragmentSize(fs as u32))
    } else if le64(b, 8200) == 0 {
        Err(SuperblockParseError::InvalidTotalBlocks(0))
    } else {
        Ok(
            UfsSuperblock {
                magic: magic as u32,
                block_size_bytes: bs as u32,
                fragment_size_bytes: fs as u32,
                total_blocks: le64(b, 8200) as u64,
            },
        )
    }
}

/// Parses the UFS superblock of `image`.
pub fn parse_superblock(image: &[u8]) -> (r: Result<UfsSuperblock, SuperblockParseError>)
    ensures
        r == superblock_of(image@),
{
    let minimum = UFS_SUPERBLOCK_OFFSET + UFS_SUPERBLOCK_SIZE;
    if image.len() < minimum {
        return Err(SuperblockParseError::BufferTooSmall { expected: minimum, actual: image.len() });
    }
    let magic = read_u32_le(image, UFS_MAGIC_OFFSET);
    if magic != UFS1_MAGIC && magic != UFS2_MAGIC {
        return Err(SuperblockParseError::InvalidMagic(magic));
    }
    let block_size_bytes = read_u32_le(image, UFS_BLOCK_SIZE_OFFSET);
    if block_size_bytes < 512 || block_size_bytes > 65_536 || !is_power_of_two(block_size_bytes as u64) {
        return Err(SuperblockParseError::InvalidBlockSize(block_size_bytes));
    }
    let fragment_size_bytes = read_u32_le(image, UFS_FRAGMENT_SIZE_OFFSET);
    if fragment_size_bytes == 0 || fragment_size_bytes > block_size_bytes {
        return Err(SuperblockParseError::InvalidFragmentSize(fragment_size_bytes));
    }
    let total_blocks = read_u64_le(image, UFS_TOTAL_BLOCKS_OFFSET);
    if total_blocks == 0 {
        return Err(SuperblockParseError::InvalidTotalBlocks(total_blocks));
    }
    Ok(UfsSuperblock { magic, block_size_bytes, fragment_size_bytes, total_blocks })
}

/// The views of candidates.
pub open spec fn candidate_views(v: Seq<UfsDeletedCandidate>) -> Seq<TombstoneView> {
    Seq::new(v.len(), |i: int| v[i]@)
}

fn to_candidates(entries: Vec<TombstoneEntry>) -> (out: Vec<UfsDeletedCandidate>)
    requires
        ids_fit_u32(entry_views(entries@)),
    ensures
        candidate_views(out@) == entry_views(entries@),
{
    let mut out: Vec<UfsDeletedCandidate> = Vec::new();
    let mut k: usize = 0;
    while k < entries.len()
        invariant
            k <= entries@.len(),
            ids_fit_u32(entry_views(entries@)),
            candidate_views(out@) =~= entry_views(entries@).subrange(0, k as int),
        decreases entries@.len() - k,
    {
        let e = &entries[k];
        let ghost old_out = out@;
        assert(entry_views(entries@)[k as int].id <= u32::MAX);
        out.push(UfsDeletedCandidate {
            inode_number: e.id as u32,
            size_bytes: e.size_bytes,
            name: string_from_chars(&e.name),
            path: string_from_chars(&e.path),
            is_directory: e.is_directory,
        });
        assert(candidate_views(out@) =~= candidate_views(old_out).push(entries@[k as int]@));
        assert(entry_views(entries@).subrange(0, k + 1) =~= entry_views(entries@).subrange(0, k as int).push(entries@[k as int]@));
        k = k + 1;
    }
    out
}

/// The tombstones of `image`, at most `max_entries`, deduplicated on id and path.
pub open spec fn ufs_tombstones(image: Seq<u8>, max_entries: int) -> Seq<TombstoneView> {
    tombstone_scan(image, UFS_TOMBSTONE_MARKER@, false, max_entries, 0, Seq::empty())
}

/// Scans `image` for deleted-entry tombstones (the superblock is not consulted).
pub fn scan_deleted_candidates_with_superblock(
    image: &[u8],
    _superblock: &UfsSuperblock,
    max_entries: usize,
) -> (out: Vec<UfsDeletedCandidate>)
    ensures
        candidate_views(out@) == ufs_tombstones(image@, max_entries as int),
{
    if max_entries == 0 || image.len() < UFS_TOMBSTONE_RECORD_SIZE {
        assert(candidate_views(Seq::<UfsDeletedCandidate>::empty()) =~= Seq::<TombstoneView>::empty());
        return Vec::new();
    }
    let entries = scan_tombstones(image, &UFS_TOMBSTONE_MARKER, false, max_entries);
    to_candidates(entries)
}

/// Parses the superblock, then scans for tombstones.
pub fn scan_deleted_candidates(image: &[u8], max_entries: usize) -> (r: Result<
    (UfsSuperblock, Vec<UfsDeletedCandidate>),
    ScanError,
>)
    ensures
        match (r, superblock_of(image@)) {
            (Ok((h, v)), Ok(g)) => h == g && candidate_views(v@) == ufs_tombstones(
                image@,
                max_entries as int,
            ),
            (Err(ScanError::Superblock(e)), Err(f)) => e == f,
            _ => false,
        },
{
    let superblock = match parse_superblock(image) {
        Ok(h) => h,
        Err(e) => return Err(ScanError::Superblock(e)),
    };
    let entries = scan_deleted_candidates_with_superblock(image, &superblock, max_entries);
    Ok((superblock, entries))
}

} // verus!
