//! ext2/3/4 superblock parsing and the deleted-entry scan: directory-entry
//! slack linked to deleted inodes, with inode-table fallbacks.
use vstd::prelude::*;
use crate::bytes::{le16, le32, read_u16_le, read_u32_le};
use crate::text::{
    chars_of, decimal, decimal_chars, push_chars, push_str, relative_path, relative_path_of, string_from_chars,
    trim_whitespace, trim_ws, utf8_str,
};
use crate::session::contains_u64;
use vstd::utf8::{decode_utf8, valid_utf8};
use crate::types::{ModuleDescriptor, RecoverySourceKind};

verus! {

pub const EXT_SUPERBLOCK_OFFSET: usize = 1024;
pub const EXT_SUPERBLOCK_SIZE: usize = 1024;
pub const EXT_SUPERBLOCK_MAGIC_OFFSET: usize = 1024 + 0x38;
pub const EXT_SUPERBLOCK_INODE_SIZE_OFFSET: usize = 1024 + 0x58;
pub const EXT_SUPERBLOCK_FEATURE_COMPAT_OFFSET: usize = 1024 + 0x5C;
pub const EXT_SUPERBLOCK_FEATURE_INCOMPAT_OFFSET: usize = 1024 + 0x60;
pub const EXT_GROUP_DESCRIPTOR_INODE_TABLE_OFFSET: usize = 0x08;
pub const EXT_INODE_SIZE_HIGH_OFFSET: usize = 0x6C;
/// 1980-01-01 as a Unix time.
pub const EXT_MIN_DELETION_UNIX: u32 = 315_532_800;
/// 2100-01-01 as a Unix time.
pub const EXT_MAX_DELETION_UNIX: u32 = 4_102_444_800;
pub const EXT_FEATURE_COMPAT_HAS_JOURNAL: u32 = 0x0004;
pub const EXT_FEATURE_INCOMPAT_EXTENTS: u32 = 0x0040;

/// Identity of the ext module.
pub fn descriptor() -> (d: ModuleDescriptor)
    ensures
        d.name == "fr-ext",
        d.purpose == "ext superblock parser and deleted directory-entry candidate seam.",
        d.source_kind == RecoverySourceKind::ImageFile,
{
    ModuleDescriptor {
        name: "fr-ext",
        purpose: "ext superblock parser and deleted directory-entry candidate seam.",
        source_kind: RecoverySourceKind::ImageFile,
    }
}

/// Parsed ext superblock.
#[derive(Debug, Clone, PartialEq, Eq, Structural)]
pub struct ExtSuperblock {
    pub filesystem_kind: ExtFilesystemKind,
    pub inodes_count: u32,
    pub blocks_count: u64,
    pub first_data_block: u32,
    pub block_size_bytes: u32,
    pub blocks_per_group: u32,
    pub inodes_per_group: u32,
    pub inode_size_bytes: u16,
}

/// Which ext generation a superblock's features describe.
#[derive(Debug, Clone, Copy, PartialEq, Eq, Structural)]
pub enum ExtFilesystemKind {
    Ext2,
    Ext3,
    Ext4,
}

impl ExtFilesystemKind {
    /// `"ext2"`, `"ext3"` or `"ext4"`.
    pub fn as_str(&self) -> (s: &'static str)
        ensures
            s == match self {
                ExtFilesystemKind::Ext2 => "ext2",
                ExtFilesystemKind::Ext3 => "ext3",
                ExtFilesystemKind::Ext4 => "ext4",
            },
    {
        match self {
            ExtFilesystemKind::Ext2 => "ext2",
            ExtFilesystemKind::Ext3 => "ext3",
            ExtFilesystemKind::Ext4 => "ext4",
        }
    }

    /// 1, 2 or 3 for ext2, ext3 or ext4.
    pub fn as_code(&self) -> (c: u32)
        ensures
            c == match self {
                ExtFilesystemKind::Ext2 => 1u32,
                ExtFilesystemKind::Ext3 => 2u32,
                ExtFilesystemKind::Ext4 => 3u32,
            },
    {
        match self {
            ExtFilesystemKind::Ext2 => 1,
            ExtFilesystemKind::Ext3 => 2,
            ExtFilesystemKind::Ext4 => 3,
        }
    }
}

/// Why a superblock was refused.
#[derive(Debug, Clone, PartialEq, Eq, Structural)]
pub enum SuperblockParseError {
    BufferTooSmall { expected: usize, actual: usize },
    InvalidMagic(u16),
    InvalidBlockSizeShift(u32),
    InvalidInodeSize(u16),
}

/// A deleted file or folder found on an ext volume.
#[derive(Debug, Clone, PartialEq, Eq)]
pub struct ExtDeletedCandidate {
    pub inode_number: u64,
    pub entry_offset_bytes: u64,
    pub size_bytes: u64,
    pub name: String,
    pub path: String,
    pub is_directory: bool,
}

/// Why a scan could not run.
#[derive(Debug, Clone, PartialEq, Eq, Structural)]
pub enum ScanError {
    Superblock(SuperblockParseError),
}

/// The generation that the feature flags describe: extents make ext4, a
/// journal without extents ext3, neither ext2.
pub open spec fn ext_kind_of(compat: u32, incompat: u32) -> ExtFilesystemKind {
    if incompat & EXT_FEATURE_INCOMPAT_EXTENTS != 0 {
        ExtFilesystemKind::Ext4
    } else if compat & EXT_FEATURE_COMPAT_HAS_JOURNAL != 0 {
        ExtFilesystemKind::Ext3
    } else {
        ExtFilesystemKind::Ext2
    }
}

fn classify_ext_filesystem(features_compat: u32, features_incompat: u32) -> (k: ExtFilesystemKind)
    ensures
        k == ext_kind_of(features_compat, features_incompat),
{
    if (features_incompat & EXT_FEATURE_INCOMPAT_EXTENTS) != 0 {
        ExtFilesystemKind::Ext4
    } else if (features_compat & EXT_FEATURE_COMPAT_HAS_JOURNAL) != 0 {
        ExtFilesystemKind::Ext3
    } else {
        ExtFilesystemKind::Ext2
    }
}

/// The superblock of image `img` (at byte 1024), or the first check it fails.
pub open spec fn ext_superblock_of(img: Seq<u8>) -> Result<ExtSuperblock, SuperblockParseError> {
    let sb = 1024int;
    let shift = le32(img, sb + 0x18);
    let inode_size = le16(img, sb + 0x58);
    if img.len() < 2048 {
        Err(SuperblockParseError::BufferTooSmall { expected: 2048, actual: img.len() as usize })
    } else if le16(img, sb + 0x38) != 0xEF53 {
        Err(SuperblockParseError::InvalidMagic(le16(img, sb + 0x38) as u16))
    } else if shift > 6 {
        Err(SuperblockParseError::InvalidBlockSizeShift(shift as u32))
    } else if inode_size < 128 || inode_size > 4096 || inode_size % 4 != 0 {
        Err(SuperblockParseError::InvalidInodeSize(inode_size as u16))
    } else {
        Ok(
            ExtSuperblock {
                filesystem_kind: ext_kind_of(le32(img, sb + 0x5C) as u32, le32(img, sb + 0x60) as u32),
                inodes_count: le32(img, sb) as u32,
                blocks_count: le32(img, sb + 4) as u64,
                first_data_block: le32(img, sb + 0x14) as u32,
                block_size_bytes: 1024u32 << (shift as u32),
                blocks_per_group: le32(img, sb + 0x20) as u32,
                inodes_per_group: le32(img, sb + 0x28) as u32,
                inode_size_bytes: inode_size as u16,
            },
        )
    }
}

/// Parses the ext superblock of a volume image.
pub fn parse_superblock(image: &[u8]) -> (r: Result<ExtSuperblock, SuperblockParseError>)
    ensures
        r == ext_superblock_of(image@),
{
    let min_size = EXT_SUPERBLOCK_OFFSET + EXT_SUPERBLOCK_SIZE;
    if image.len() < min_size {
        return Err(SuperblockParseError::BufferTooSmall { expected: min_size, actual: image.len() });
    }
    let magic = read_u16_le(image, EXT_SUPERBLOCK_MAGIC_OFFSET);
    if magic != 0xEF53 {
        return Err(SuperblockParseError::InvalidMagic(magic));
    }
    let block_size_shift = read_u32_le(image, EXT_SUPERBLOCK_OFFSET + 0x18);
    if block_size_shift > 6 {
        return Err(SuperblockParseError::InvalidBlockSizeShift(block_size_shift));
    }
    let block_size_bytes = 1024u32 << block_size_shift;
    let inode_size_bytes = read_u16_le(image, EXT_SUPERBLOCK_INODE_SIZE_OFFSET);
    if inode_size_bytes < 128 || inode_size_bytes > 4096 || inode_size_bytes % 4 != 0 {
        return Err(SuperblockParseError::InvalidInodeSize(inode_size_bytes));
    }
    let features_compat = read_u32_le(image, EXT_SUPERBLOCK_FEATURE_COMPAT_OFFSET);
    let features_incompat = read_u32_le(image, EXT_SUPERBLOCK_FEATURE_INCOMPAT_OFFSET);
    let filesystem_kind = classify_ext_filesystem(features_compat, features_incompat);
    Ok(ExtSuperblock {
        filesystem_kind,
        inodes_count: read_u32_le(image, EXT_SUPERBLOCK_OFFSET),
        blocks_count: read_u32_le(image, EXT_SUPERBLOCK_OFFSET + 0x04) as u64,
        first_data_block: read_u32_le(image, EXT_SUPERBLOCK_OFFSET + 0x14),
        block_size_bytes,
        blocks_per_group: read_u32_le(image, EXT_SUPERBLOCK_OFFSET + 0x20),
        inodes_per_group: read_u32_le(image, EXT_SUPERBLOCK_OFFSET + 0x28),
        inode_size_bytes,
    })
}


// ---------------------------------------------------------------------------
// Deleted inodes in the inode tables
// ---------------------------------------------------------------------------

/// File type of a deleted inode that can become a candidate.
#[derive(Debug, Clone, Copy, PartialEq, Eq, Structural)]
pub enum ExtInodeFileType {
    Regular,
    Directory,
    Symlink,
}

/// A deleted inode found in an inode table.
#[derive(Debug, Clone, Copy, PartialEq, Eq, Structural)]
pub struct DeletedInodeMetadata {
    pub inode_number: u64,
    pub inode_offset_bytes: u64,
    pub size_bytes: u64,
    pub file_type: ExtInodeFileType,
}

/// The file type that the high bits of `mode` give, if it is one we recover.
pub open spec fn inode_file_type(mode: u16) -> Option<ExtInodeFileType> {
    if mode & 0xF000 == 0x8000 {
        Some(ExtInodeFileType::Regular)
    } else if mode & 0xF000 == 0x4000 {
        Some(ExtInodeFileType::Directory)
    } else if mode & 0xF000 == 0xA000 {
        Some(ExtInodeFileType::Symlink)
    } else {
        None
    }
}

fn decode_inode_file_type(mode: u16) -> (r: Option<ExtInodeFileType>)
    ensures
        r == inode_file_type(mode),
{
    let top = mode & 0xF000;
    if top == 0x8000 {
        Some(ExtInodeFileType::Regular)
    } else if top == 0x4000 {
        Some(ExtInodeFileType::Directory)
    } else if top == 0xA000 {
        Some(ExtInodeFileType::Symlink)
    } else {
        None
    }
}

/// `n / d` rounded up, with `n + d - 1` saturating at `u64::MAX`.
pub open spec fn div_ceil(n: int, d: int) -> int {
    if n + d - 1 > u64::MAX {
        u64::MAX as int / d
    } else {
        (n + d - 1) / d
    }
}

/// Number of block groups: the larger of the groups the blocks and the
/// inodes need.
pub open spec fn group_count(sb: ExtSuperblock) -> int {
    let by_blocks = if sb.blocks_per_group == 0 {
        0
    } else {
        div_ceil(sb.blocks_count as int, sb.blocks_per_group as int)
    };
    let by_inodes = if sb.inodes_per_group == 0 {
        0
    } else {
        div_ceil(sb.inodes_count as int, sb.inodes_per_group as int)
    };
    if by_blocks >= by_inodes {
        by_blocks
    } else {
        by_inodes
    }
}

/// Number of inode slots group `g` holds.
pub open spec fn inodes_in_group(sb: ExtSuperblock, g: int) -> int {
    let ipg = sb.inodes_per_group as int;
    if ipg == 0 || g >= group_count(sb) {
        0
    } else {
        let full = sb.inodes_count as int / ipg;
        let rem = sb.inodes_count as int % ipg;
        if g < full {
            ipg
        } else if g == full {
            if rem == 0 {
                ipg
            } else {
                rem
            }
        } else {
            0
        }
    }
}

/// Byte offset of the first group descriptor.
pub open spec fn first_group_descriptor(sb: ExtSuperblock) -> int {
    if sb.block_size_bytes == 1024 {
        2048
    } else {
        sb.block_size_bytes as int
    }
}

/// The deleted inode in slot `idx` of group `g`, whose inode sits at byte
/// `off`: an inode numbered above 10, with a mode, no links, a deletion time
/// in 1980..=2100 and a recoverable file type.
pub open spec fn slot_metadata(img: Seq<u8>, sb: ExtSuperblock, g: int, idx: int, off: int) -> Option<
    DeletedInodeMetadata,
> {
    let number = g * sb.inodes_per_group + idx + 1;
    let mode = le16(img, off) as u16;
    let dtime = le32(img, off + 20);
    if number <= 10 {
        None
    } else if mode == 0 || le16(img, off + 26) != 0 || dtime < EXT_MIN_DELETION_UNIX || dtime
        > EXT_MAX_DELETION_UNIX {
        None
    } else {
        match inode_file_type(mode) {
            None => None,
            Some(t) => {
                let hi = if sb.inode_size_bytes >= 0x70 {
                    le32(img, off + 0x6C)
                } else {
                    0
                };
                Some(
                    DeletedInodeMetadata {
                        inode_number: number as u64,
                        inode_offset_bytes: off as u64,
                        size_bytes: (hi * 0x1_0000_0000 + le32(img, off + 4)) as u64,
                        file_type: t,
                    },
                )
            },
        }
    }
}

/// Deleted inodes among the first `i` slots of group `g`, whose table starts
/// at byte `table`; the walk stops at the first slot past the image end.
pub open spec fn group_inodes(img: Seq<u8>, sb: ExtSuperblock, g: int, table: int, i: nat) -> (
    Seq<DeletedInodeMetadata>,
    bool,
)
    decreases i,
{
    if i == 0 {
        (Seq::empty(), false)
    } else {
        let prev = group_inodes(img, sb, g, table, (i - 1) as nat);
        let off = table + (i - 1) * sb.inode_size_bytes;
        if prev.1 {
            prev
        } else if off + sb.inode_size_bytes > img.len() {
            (prev.0, true)
        } else {
            match slot_metadata(img, sb, g, i - 1, off) {
                Some(m) => (prev.0.push(m), false),
                None => prev,
            }
        }
    }
}

/// Deleted inodes of groups `0..g`; the walk stops at the first group whose
/// descriptor lies past the image end, and skips groups without a table.
pub open spec fn groups_inodes(img: Seq<u8>, sb: ExtSuperblock, g: nat) -> (Seq<DeletedInodeMetadata>, bool)
    decreases g,
{
    if g == 0 {
        (Seq::empty(), false)
    } else {
        let prev = groups_inodes(img, sb, (g - 1) as nat);
        let k = g - 1;
        let gd = first_group_descriptor(sb) + k * 32;
        let table = le32(img, gd + 8) * sb.block_size_bytes;
        if prev.1 {
            prev
        } else if gd + 32 > img.len() {
            (prev.0, true)
        } else if le32(img, gd + 8) == 0 || table >= img.len() || inodes_in_group(sb, k) == 0 {
            prev
        } else {
            (prev.0 + group_inodes(img, sb, k, table, inodes_in_group(sb, k) as nat).0, false)
        }
    }
}

/// The deleted inodes that the inode tables of image `img` describe.
pub open spec fn deleted_inodes(img: Seq<u8>, sb: ExtSuperblock) -> Seq<DeletedInodeMetadata> {
    if sb.block_size_bytes < 1024 || sb.inode_size_bytes < 128 || group_count(sb) == 0
        || sb.inodes_per_group == 0 {
        Seq::empty()
    } else {
        groups_inodes(img, sb, group_count(sb) as nat).0
    }
}

proof fn lemma_group_inodes_stopped(img: Seq<u8>, sb: ExtSuperblock, g: int, table: int, i: nat, j: nat)
    requires
        i <= j,
        group_inodes(img, sb, g, table, i).1,
    ensures
        group_inodes(img, sb, g, table, j) == group_inodes(img, sb, g, table, i),
    decreases j - i,
{
    if i < j {
        lemma_group_inodes_stopped(img, sb, g, table, i, (j - 1) as nat);
    }
}

proof fn lemma_groups_inodes_stopped(img: Seq<u8>, sb: ExtSuperblock, i: nat, j: nat)
    requires
        i <= j,
        groups_inodes(img, sb, i).1,
    ensures
        groups_inodes(img, sb, j) == groups_inodes(img, sb, i),
    decreases j - i,
{
    if i < j {
        lemma_groups_inodes_stopped(img, sb, i, (j - 1) as nat);
    }
}

fn group_count_of(sb: &ExtSuperblock) -> (n: u64)
    ensures
        n == group_count(*sb),
{
    let by_blocks: u64 = if sb.blocks_per_group == 0 {
        0
    } else {
        let d = sb.blocks_per_group as u64;
        sb.blocks_count.saturating_add(d - 1) / d
    };
    let by_inodes: u64 = if sb.inodes_per_group == 0 {
        0
    } else {
        let d = sb.inodes_per_group as u64;
        (sb.inodes_count as u64).saturating_add(d - 1) / d
    };
    if by_blocks >= by_inodes {
        by_blocks
    } else {
        by_inodes
    }
}

fn inodes_in_group_of(sb: &ExtSuperblock, g: u64, count: u64) -> (n: u64)
    requires
        count == group_count(*sb),
    ensures
        n == inodes_in_group(*sb, g as int),
        n <= sb.inodes_per_group,
{
    let ipg = sb.inodes_per_group as u64;
    if ipg == 0 || g >= count {
        return 0;
    }
    let total = sb.inodes_count as u64;
    let full = total / ipg;
    let rem = total % ipg;
    if g < full {
        ipg
    } else if g == full {
        if rem == 0 {
            ipg
        } else {
            rem
        }
    } else {
        0
    }
}

fn collect_group(image: &[u8], sb: &ExtSuperblock, g: u64, table: u64, slots: u64) -> (r: Vec<DeletedInodeMetadata>)
    requires
        slots == inodes_in_group(*sb, g as int),
        slots > 0,
        table < image@.len(),
        sb.inodes_per_group > 0,
        sb.inode_size_bytes >= 128,
    ensures
        r@ == group_inodes(image@, *sb, g as int, table as int, slots as nat).0,
{
    let len = image.len();
    let isz = sb.inode_size_bytes as u64;
    let ipg = sb.inodes_per_group as u64;
    let mut out: Vec<DeletedInodeMetadata> = Vec::new();
    let mut idx: u64 = 0;
    proof {
        let n = sb.inodes_count as int;
        let full = n / (ipg as int);
        assert(g <= full);
        assert(g * ipg <= n) by (nonlinear_arith)
            requires
                g <= full,
                full == n / (ipg as int),
                ipg > 0,
                n >= 0,
        {
            assert(full * ipg <= n);
            assert(g * ipg <= full * ipg);
        }
    }
    while idx < slots
        invariant_except_break
            group_inodes(image@, *sb, g as int, table as int, idx as nat) == (out@, false),
        invariant
            len == image@.len(),
            idx <= slots <= ipg,
            isz == sb.inode_size_bytes,
            isz >= 128,
            ipg == sb.inodes_per_group,
            table < len,
            g * ipg + ipg <= 0x2_0000_0000,
        ensures
            group_inodes(image@, *sb, g as int, table as int, slots as nat).0 == out@,
        decreases slots - idx,
    {
        assert(idx * isz <= 0x1_0000_0000 * 0x1_0000) by (nonlinear_arith)
            requires
                idx < 0x1_0000_0000,
                isz < 0x1_0000,
        ;
        let end = match table.checked_add(idx * isz) {
            Some(off) => off.checked_add(isz),
            None => None,
        };
        let off = match end {
            Some(e) => if e > len as u64 {
                proof {
                    lemma_group_inodes_stopped(image@, *sb, g as int, table as int, (idx + 1) as nat, slots as nat);
                }
                break;
            } else {
                e - isz
            },
            None => {
                proof {
                    lemma_group_inodes_stopped(image@, *sb, g as int, table as int, (idx + 1) as nat, slots as nat);
                }
                break;
            },
        };
        let o = off as usize;
        assert(g * ipg + idx + 1 <= 0x2_0000_0000) by (nonlinear_arith)
            requires
                g * ipg + ipg <= 0x2_0000_0000,
                idx < ipg,
        ;
        let number: u64 = g * ipg + idx + 1;
        if number > 10 {
            let mode = read_u16_le(image, o);
            let links_count = read_u16_le(image, o + 26);
            let deletion_time = read_u32_le(image, o + 20);
            if !(mode == 0 || links_count != 0 || deletion_time < EXT_MIN_DELETION_UNIX || deletion_time
                > EXT_MAX_DELETION_UNIX) {
                match decode_inode_file_type(mode) {
                    Some(file_type) => {
                        let size_lo = read_u32_le(image, o + 4) as u64;
                        let size_hi: u64 = if isz >= (EXT_INODE_SIZE_HIGH_OFFSET + 4) as u64 {
                            read_u32_le(image, o + EXT_INODE_SIZE_HIGH_OFFSET) as u64
                        } else {
                            0
                        };
                        let size_bytes = (size_hi << 32u64) | size_lo;
                        assert((size_hi << 32u64) | size_lo == size_hi * 0x1_0000_0000 + size_lo) by (bit_vector)
                            requires
                                size_hi < 0x1_0000_0000,
                                size_lo < 0x1_0000_0000,
                        ;
                        out.push(DeletedInodeMetadata {
                            inode_number: number,
                            inode_offset_bytes: off,
                            size_bytes,
                            file_type,
                        });
                    },
                    None => {},
                }
            }
        }
        idx = idx + 1;
    }
    out
}

fn collect_deleted_inode_metadata(image: &[u8], sb: &ExtSuperblock) -> (r: Vec<DeletedInodeMetadata>)
    ensures
        r@ == deleted_inodes(image@, *sb),
{
    let mut metadata: Vec<DeletedInodeMetadata> = Vec::new();
    if sb.block_size_bytes < 1024 || sb.inode_size_bytes < 128 {
        return metadata;
    }
    let base: u64 = if sb.block_size_bytes == 1024 {
        2048
    } else {
        sb.block_size_bytes as u64
    };
    let count = group_count_of(sb);
    if count == 0 || sb.inodes_per_group == 0 {
        return metadata;
    }
    let len = image.len();
    let bs = sb.block_size_bytes as u64;
    let mut g: u64 = 0;
    assert(metadata@ =~= Seq::<DeletedInodeMetadata>::empty());
    while g < count
        invariant_except_break
            groups_inodes(image@, *sb, g as nat) == (metadata@, false),
        invariant
            len == image@.len(),
            count == group_count(*sb),
            count > 0,
            g <= count,
            base == first_group_descriptor(*sb),
            bs == sb.block_size_bytes,
            sb.inodes_per_group > 0,
            sb.inode_size_bytes >= 128,
        ensures
            groups_inodes(image@, *sb, count as nat).0 == metadata@,
        decreases count - g,
    {
        let gd = match g.checked_mul(32) {
            Some(d) => match base.checked_add(d) {
                Some(v) => v,
                None => {
                    proof {
                        lemma_groups_inodes_stopped(image@, *sb, (g + 1) as nat, count as nat);
                    }
                    break;
                },
            },
            None => {
                proof {
                    lemma_groups_inodes_stopped(image@, *sb, (g + 1) as nat, count as nat);
                }
                break;
            },
        };
        if gd > len as u64 || len as u64 - gd < 32 {
            proof {
                lemma_groups_inodes_stopped(image@, *sb, (g + 1) as nat, count as nat);
            }
            break;
        }
        let gdo = gd as usize;
        let inode_table_block = read_u32_le(image, gdo + EXT_GROUP_DESCRIPTOR_INODE_TABLE_OFFSET) as u64;
        let table = match inode_table_block.checked_mul(bs) {
            Some(t) => t,
            None => u64::MAX,
        };
        if inode_table_block != 0 && table < len as u64 {
            let slots = inodes_in_group_of(sb, g, count);
            if slots != 0 {
                let found = collect_group(image, sb, g, table, slots);
                let ghost before = metadata@;
                let mut k: usize = 0;
                while k < found.len()
                    invariant
                        k <= found@.len(),
                        metadata@ == before + found@.subrange(0, k as int),
                    decreases found@.len() - k,
                {
                    metadata.push(found[k]);
                    assert(before + found@.subrange(0, k + 1) =~= (before + found@.subrange(0, k as int)).push(found@[k as int]));
                    k = k + 1;
                }
                assert(found@.subrange(0, found@.len() as int) =~= found@);
            }
        }
        g = g + 1;
    }
    metadata
}


// ---------------------------------------------------------------------------
// Directory-entry slack and fallbacks
// ---------------------------------------------------------------------------

/// A candidate with its strings as characters.
pub struct ExtCandidateView {
    pub inode_number: u64,
    pub entry_offset_bytes: u64,
    pub size_bytes: u64,
    pub name: Seq<char>,
    pub path: Seq<char>,
    pub is_directory: bool,
}

impl View for ExtDeletedCandidate {
    type V = ExtCandidateView;

    open spec fn view(&self) -> ExtCandidateView {
        ExtCandidateView {
            inode_number: self.inode_number,
            entry_offset_bytes: self.entry_offset_bytes,
            size_bytes: self.size_bytes,
            name: self.name@,
            path: self.path@,
            is_directory: self.is_directory,
        }
    }
}

/// The views of candidates.
pub open spec fn ext_views(v: Seq<ExtDeletedCandidate>) -> Seq<ExtCandidateView> {
    Seq::new(v.len(), |i: int| v[i]@)
}

/// A character that may not appear in a recovered entry name.
pub open spec fn forbidden_name_char(c: char) -> bool {
    (c as u32) < 0x20 || c == '/' || c == '\\'
}

/// The name of a directory entry: valid UTF-8, trimmed, not empty, not `.`
/// or `..`, and free of control characters and path separators.
pub open spec fn ext_entry_name(b: Seq<u8>) -> Option<Seq<char>> {
    if !valid_utf8(b) {
        None
    } else {
        let t = trim_ws(decode_utf8(b));
        if t.len() == 0 || t == seq!['.'] || t == seq!['.', '.'] {
            None
        } else if exists|k: int| 0 <= k < t.len() && forbidden_name_char(t[k]) {
            None
        } else {
            Some(t)
        }
    }
}

fn decode_ext_name(bytes: &[u8]) -> (r: Option<Vec<char>>)
    ensures
        match r {
            Some(v) => ext_entry_name(bytes@) == Some(v@),
            None => ext_entry_name(bytes@) is None,
        },
{
    let text = match utf8_str(bytes) {
        Some(s) => s,
        None => return None,
    };
    let chars = chars_of(text);
    let t = trim_whitespace(&chars);
    let n = t.len();
    if n == 0 || (n == 1 && t[0] == '.') || (n == 2 && t[0] == '.' && t[1] == '.') {
        proof {
            if n == 1 {
                assert(t@ =~= seq!['.']);
            }
            if n == 2 {
                assert(t@ =~= seq!['.', '.']);
            }
        }
        return None;
    }
    proof {
        if t@ == seq!['.'] {
            assert(t@[0] == '.');
        }
        if t@ == seq!['.', '.'] {
            assert(t@[0] == '.' && t@[1] == '.');
        }
    }
    let mut k: usize = 0;
    while k < n
        invariant
            n == t@.len(),
            k <= n,
            valid_utf8(bytes@),
            t@ == trim_ws(decode_utf8(bytes@)),
            !(t@.len() == 0 || t@ == seq!['.'] || t@ == seq!['.', '.']),
            forall|m: int| 0 <= m < k ==> !forbidden_name_char(t@[m]),
        decreases n - k,
    {
        let c = t[k];
        if (c as u32) < 0x20 || c == '/' || c == '\\' {
            assert(forbidden_name_char(t@[k as int]));
            return None;
        }
        k = k + 1;
    }
    Some(t)
}

/// The first deleted inode of `m` numbered `inode`.
pub open spec fn first_inode(m: Seq<DeletedInodeMetadata>, inode: u64) -> Option<DeletedInodeMetadata>
    decreases m.len(),
{
    if m.len() == 0 {
        None
    } else if m[0].inode_number == inode {
        Some(m[0])
    } else {
        first_inode(m.drop_first(), inode)
    }
}

/// Whether a directory entry of type `dir_type` may name an inode of type `t`
/// (type 0 names any).
pub open spec fn entry_type_matches(dir_type: u8, t: ExtInodeFileType) -> bool {
    if dir_type == 0 {
        true
    } else if dir_type == 1 {
        t == ExtInodeFileType::Regular
    } else if dir_type == 2 {
        t == ExtInodeFileType::Directory
    } else if dir_type == 7 {
        t == ExtInodeFileType::Symlink
    } else {
        false
    }
}

/// State of the slack walk: candidates so far, and the deleted inodes that a
/// directory entry has already named.
pub struct SlackState {
    pub out: Seq<ExtCandidateView>,
    pub matched: Set<u64>,
}

/// Whether the bytes at `off` look like a directory entry, and where it ends.
pub open spec fn entry_end(img: Seq<u8>, off: int) -> Option<int> {
    let rec_len = le16(img, off + 4);
    let name_len = img[off + 6] as int;
    if rec_len >= 8 && rec_len <= 4096 && rec_len % 4 == 0 && name_len > 0 && img[off + 7] <= 7 && off
        + rec_len <= img.len() && off + 8 + name_len <= off + rec_len {
        Some(off + rec_len)
    } else {
        None
    }
}

/// The state after the directory entry at `off` that ends at `end`.
pub open spec fn slack_entry(
    img: Seq<u8>,
    inodes: Seq<DeletedInodeMetadata>,
    st: SlackState,
    off: int,
) -> SlackState {
    let inode = le32(img, off) as u64;
    let name_end = off + 8 + img[off + 6];
    let file_type = img[off + 7];
    match ext_entry_name(img.subrange(off + 8, name_end)) {
        None => st,
        Some(name) => if inode > 0 {
            match first_inode(inodes, inode) {
                None => st,
                Some(m) => if !entry_type_matches(file_type, m.file_type) {
                    st
                } else if st.matched.contains(inode) {
                    SlackState { out: st.out, matched: st.matched }
                } else {
                    SlackState {
                        out: st.out.push(
                            ExtCandidateView {
                                inode_number: inode,
                                entry_offset_bytes: off as u64,
                                size_bytes: m.size_bytes,
                                name,
                                path: relative_path(name),
                                is_directory: m.file_type == ExtInodeFileType::Directory,
                            },
                        ),
                        matched: st.matched.insert(inode),
                    }
                },
            }
        } else {
            SlackState {
                out: st.out.push(
                    ExtCandidateView {
                        inode_number: 0,
                        entry_offset_bytes: off as u64,
                        size_bytes: 0,
                        name,
                        path: relative_path(name),
                        is_directory: file_type == 2,
                    },
                ),
                matched: st.matched,
            }
        },
    }
}

/// The slack walk from byte `off`: a plausible directory entry is decoded and
/// skipped whole, anything else is skipped four bytes at a time, until fewer
/// than eight bytes remain or `max` candidates are found.
pub open spec fn slack_from(
    img: Seq<u8>,
    max: nat,
    inodes: Seq<DeletedInodeMetadata>,
    st: SlackState,
    off: int,
) -> SlackState
    decreases img.len() - off,
{
    if off < 0 || off + 8 > img.len() || st.out.len() >= max {
        st
    } else {
        match entry_end(img, off) {
            Some(end) => slack_from(img, max, inodes, slack_entry(img, inodes, st, off), end),
            None => slack_from(img, max, inodes, st, off + 4),
        }
    }
}

/// `inode-N`.
pub open spec fn inode_name(n: u64) -> Seq<char> {
    "inode-"@ + decimal(n as nat)
}

/// Candidates for the deleted inodes `m[..k]` that no directory entry named,
/// after `st`, up to `max` candidates.
pub open spec fn fallback_upto(
    max: nat,
    m: Seq<DeletedInodeMetadata>,
    st: SlackState,
    k: int,
) -> (Seq<ExtCandidateView>, Set<u64>, bool)
    decreases k,
{
    if k <= 0 {
        (st.out, Set::empty(), false)
    } else {
        let prev = fallback_upto(max, m, st, k - 1);
        let d = m[k - 1];
        if prev.2 || prev.0.len() >= max {
            (prev.0, prev.1, true)
        } else if st.matched.contains(d.inode_number) || prev.1.contains(d.inode_number) {
            prev
        } else {
            (
                prev.0.push(
                    ExtCandidateView {
                        inode_number: d.inode_number,
                        entry_offset_bytes: d.inode_offset_bytes,
                        size_bytes: d.size_bytes,
                        name: inode_name(d.inode_number),
                        path: relative_path(inode_name(d.inode_number)),
                        is_directory: d.file_type == ExtInodeFileType::Directory,
                    },
                ),
                prev.1.insert(d.inode_number),
                false,
            )
        }
    }
}

/// The deleted entries of image `img` under superblock `sb`, at most `max`.
pub open spec fn ext_scan(img: Seq<u8>, sb: ExtSuperblock, max: nat) -> Seq<ExtCandidateView> {
    if max == 0 || img.len() < 8 {
        Seq::empty()
    } else {
        let inodes = deleted_inodes(img, sb);
        let st = slack_from(img, max, inodes, SlackState { out: Seq::empty(), matched: Set::empty() }, 0);
        fallback_upto(max, inodes, st, inodes.len() as int).0
    }
}


fn find_inode(m: &Vec<DeletedInodeMetadata>, inode: u64) -> (r: Option<DeletedInodeMetadata>)
    ensures
        r == first_inode(m@, inode),
{
    let n = m.len();
    let mut k: usize = 0;
    assert(m@.subrange(0, n as int) =~= m@);
    while k < n
        invariant
            n == m@.len(),
            k <= n,
            first_inode(m@, inode) == first_inode(m@.subrange(k as int, n as int), inode),
        decreases n - k,
    {
        let ghost rest = m@.subrange(k as int, n as int);
        assert(rest[0] == m@[k as int]);
        if m[k].inode_number == inode {
            return Some(m[k]);
        }
        assert(rest.drop_first() =~= m@.subrange(k + 1, n as int));
        k = k + 1;
    }
    None
}

fn entry_type_matches_of(dir_type: u8, t: ExtInodeFileType) -> (b: bool)
    ensures
        b == entry_type_matches(dir_type, t),
{
    match dir_type {
        0 => true,
        1 => t == ExtInodeFileType::Regular,
        2 => t == ExtInodeFileType::Directory,
        7 => t == ExtInodeFileType::Symlink,
        _ => false,
    }
}

fn make_candidate(
    inode_number: u64,
    entry_offset_bytes: u64,
    size_bytes: u64,
    name: &Vec<char>,
    is_directory: bool,
) -> (c: ExtDeletedCandidate)
    ensures
        c@ == (ExtCandidateView {
            inode_number,
            entry_offset_bytes,
            size_bytes,
            name: name@,
            path: relative_path(name@),
            is_directory,
        }),
{
    ExtDeletedCandidate {
        inode_number,
        entry_offset_bytes,
        size_bytes,
        name: string_from_chars(name),
        path: string_from_chars(&relative_path_of(name)),
        is_directory,
    }
}

fn scan_deleted_directory_entry_slack(
    image: &[u8],
    max_entries: usize,
    inodes: &Vec<DeletedInodeMetadata>,
) -> (r: (Vec<ExtDeletedCandidate>, Vec<u64>))
    ensures
        ({
            let st = slack_from(
                image@,
                max_entries as nat,
                inodes@,
                SlackState { out: Seq::empty(), matched: Set::empty() },
                0,
            );
            &&& ext_views(r.0@) == st.out
            &&& forall|x: u64| r.1@.contains(x) <==> st.matched.contains(x)
        }),
{
    let ghost start = SlackState { out: Seq::empty(), matched: Set::empty() };
    let len = image.len();
    let mut out: Vec<ExtDeletedCandidate> = Vec::new();
    let mut matched: Vec<u64> = Vec::new();
    let ghost mut matched_set: Set<u64> = Set::empty();
    let mut offset: usize = 0;
    assert(ext_views(out@) =~= Seq::<ExtCandidateView>::empty());
    while len - offset >= 8 && out.len() < max_entries
        invariant
            len == image@.len(),
            offset <= len,
            forall|x: u64| matched@.contains(x) <==> matched_set.contains(x),
            slack_from(image@, max_entries as nat, inodes@, start, 0) == slack_from(
                image@,
                max_entries as nat,
                inodes@,
                SlackState { out: ext_views(out@), matched: matched_set },
                offset as int,
            ),
        decreases len - offset,
    {
        let ghost st = SlackState { out: ext_views(out@), matched: matched_set };
        let inode = read_u32_le(image, offset) as u64;
        let rec_len = read_u16_le(image, offset + 4) as usize;
        let name_len = image[offset + 6] as usize;
        let file_type = image[offset + 7];
        let shaped = rec_len >= 8 && rec_len <= 4096 && rec_len % 4 == 0 && name_len > 0 && file_type <= 7;
        if shaped && rec_len <= len - offset && 8 + name_len <= rec_len {
            let end = offset + rec_len;
            let name_end = offset + 8 + name_len;
            assert(entry_end(image@, offset as int) == Some(end as int));
            let name_bytes = &image[offset + 8..name_end];
            match decode_ext_name(name_bytes) {
                Some(name) => {
                    if inode > 0 {
                        match find_inode(inodes, inode) {
                            Some(metadata) => {
                                if entry_type_matches_of(file_type, metadata.file_type) {
                                    if !contains_u64(&matched, inode) {
                                        let c = make_candidate(
                                            inode,
                                            offset as u64,
                                            metadata.size_bytes,
                                            &name,
                                            metadata.file_type == ExtInodeFileType::Directory,
                                        );
                                        let ghost before = out@;
                                        out.push(c);
                                        assert(ext_views(out@) =~= ext_views(before).push(c@));
                                        let ghost old_matched = matched@;
                                        matched.push(inode);
                                        proof {
                                            matched_set = matched_set.insert(inode);
                                            assert forall|x: u64| matched@.contains(x) <==> matched_set.contains(x) by {
                                                if matched@.contains(x) {
                                                    let m = choose|m: int| 0 <= m < matched@.len() && matched@[m] == x;
                                                    if m < old_matched.len() {
                                                        assert(old_matched[m] == x);
                                                    }
                                                }
                                                if old_matched.contains(x) {
                                                    let m = choose|m: int| 0 <= m < old_matched.len() && old_matched[m] == x;
                                                    assert(matched@[m] == x);
                                                }
                                                if x == inode {
                                                    assert(matched@[old_matched.len() as int] == x);
                                                }
                                            }
                                        }
                                    }
                                }
                            },
                            None => {},
                        }
                    } else {
                        let c = make_candidate(0, offset as u64, 0, &name, file_type == 2);
                        let ghost before = out@;
                        out.push(c);
                        assert(ext_views(out@) =~= ext_views(before).push(c@));
                    }
                },
                None => {},
            }
            assert(SlackState { out: ext_views(out@), matched: matched_set } == slack_entry(
                image@,
                inodes@,
                st,
                offset as int,
            ));
            offset = end;
        } else {
            proof {
                if entry_end(image@, offset as int) is Some {
                    assert(false);
                }
            }
            offset = offset + 4;
        }
    }
    (out, matched)
}

proof fn lemma_fallback_stopped(max: nat, m: Seq<DeletedInodeMetadata>, st: SlackState, i: int, j: int)
    requires
        0 <= i <= j,
        fallback_upto(max, m, st, i).2,
    ensures
        fallback_upto(max, m, st, j).0 == fallback_upto(max, m, st, i).0,
        fallback_upto(max, m, st, j).2,
    decreases j - i,
{
    if i < j {
        lemma_fallback_stopped(max, m, st, i, j - 1);
    }
}

fn inode_name_of(n: u64) -> (r: Vec<char>)
    ensures
        r@ == inode_name(n),
{
    let mut v: Vec<char> = Vec::new();
    push_str(&mut v, "inode-");
    push_chars(&mut v, &decimal_chars(n));
    v
}

/// Scans image `image` for deleted entries under an already parsed superblock.
pub fn scan_deleted_candidates_with_superblock(
    image: &[u8],
    superblock: &ExtSuperblock,
    max_entries: usize,
) -> (r: Vec<ExtDeletedCandidate>)
    ensures
        ext_views(r@) == ext_scan(image@, *superblock, max_entries as nat),
{
    if max_entries == 0 || image.len() < 8 {
        let empty: Vec<ExtDeletedCandidate> = Vec::new();
        assert(ext_views(empty@) =~= Seq::<ExtCandidateView>::empty());
        return empty;
    }
    let inodes = collect_deleted_inode_metadata(image, superblock);
    let (mut out, matched) = scan_deleted_directory_entry_slack(image, max_entries, &inodes);
    let ghost st = slack_from(
        image@,
        max_entries as nat,
        inodes@,
        SlackState { out: Seq::empty(), matched: Set::empty() },
        0,
    );
    let mut seen: Vec<u64> = Vec::new();
    let ghost mut seen_set: Set<u64> = Set::empty();
    let n = inodes.len();
    let mut k: usize = 0;
    while k < n
        invariant_except_break
            fallback_upto(max_entries as nat, inodes@, st, k as int) == (ext_views(out@), seen_set, false),
        invariant
            n == inodes@.len(),
            k <= n,
            forall|x: u64| matched@.contains(x) <==> st.matched.contains(x),
            forall|x: u64| seen@.contains(x) <==> seen_set.contains(x),
        ensures
            fallback_upto(max_entries as nat, inodes@, st, n as int).0 == ext_views(out@),
        decreases n - k,
    {
        if out.len() >= max_entries {
            proof {
                lemma_fallback_stopped(max_entries as nat, inodes@, st, k + 1, n as int);
            }
            break;
        }
        let d = inodes[k];
        if !contains_u64(&matched, d.inode_number) && !contains_u64(&seen, d.inode_number) {
            let name = inode_name_of(d.inode_number);
            let c = make_candidate(
                d.inode_number,
                d.inode_offset_bytes,
                d.size_bytes,
                &name,
                d.file_type == ExtInodeFileType::Directory,
            );
            let ghost before = out@;
            out.push(c);
            assert(ext_views(out@) =~= ext_views(before).push(c@));
            let ghost old_seen = seen@;
            seen.push(d.inode_number);
            proof {
                seen_set = seen_set.insert(d.inode_number);
                assert forall|x: u64| seen@.contains(x) <==> seen_set.contains(x) by {
                    if seen@.contains(x) {
                        let m = choose|m: int| 0 <= m < seen@.len() && seen@[m] == x;
                        if m < old_seen.len() {
                            assert(old_seen[m] == x);
                        }
                    }
                    if old_seen.contains(x) {
                        let m = choose|m: int| 0 <= m < old_seen.len() && old_seen[m] == x;
                        assert(seen@[m] == x);
                    }
                    if x == d.inode_number {
                        assert(seen@[old_seen.len() as int] == x);
                    }
                }
            }
        }
        k = k + 1;
    }
    out
}

/// Parses the superblock of `image` and scans it for at most `max_entries`
/// deleted entries.
pub fn scan_deleted_candidates(image: &[u8], max_entries: usize) -> (r: Result<
    (ExtSuperblock, Vec<ExtDeletedCandidate>),
    ScanError,
>)
    ensures
        match (r, ext_superblock_of(image@)) {
            (Ok((sb, v)), Ok(s)) => sb == s && ext_views(v@) == ext_scan(image@, s, max_entries as nat),
            (Err(ScanError::Superblock(e)), Err(f)) => e == f,
            _ => false,
        },
{
    let superblock = match parse_superblock(image) {
        Ok(sb) => sb,
        Err(e) => return Err(ScanError::Superblock(e)),
    };
    let entries = scan_deleted_candidates_with_superblock(image, &superblock, max_entries);
    Ok((superblock, entries))
}

} // verus!
