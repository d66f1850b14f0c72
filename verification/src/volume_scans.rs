//! What a scan of a volume's start gives: the boot sector or superblock of
//! each filesystem with the status of why it was refused, and the deleted
//! candidates of a scanned prefix.
use vstd::prelude::*;
use crate::apfs::{
    apfs_tombstones, candidate_views as apfs_views, container_of, parse_container_superblock,
    scan_deleted_candidates_with_container, ApfsContainerSuperblock, ApfsDeletedCandidate,
};
use crate::ext::{
    ext_scan, ext_superblock_of, ext_views, parse_superblock as parse_ext_superblock,
    scan_deleted_candidates_with_superblock as scan_ext_candidates, ExtDeletedCandidate, ExtSuperblock,
};
use crate::fat::{
    fat_boot_of, fat_views, parse_boot_sector as parse_fat_boot_sector, scan_deleted_entries_with_boot, tree_result,
    FatBootSector, FatDeletedEntry, ScanError as FatScanError,
};
use crate::hfs::{
    candidate_views as hfs_views, hfs_tombstones, parse_volume_header, scan_deleted_candidates_with_header,
    volume_header_of, HfsDeletedCandidate, HfsVolumeHeader,
};
use crate::ntfs::{ntfs_boot_of, ntfs_boot_valid, parse_boot_sector as parse_ntfs_boot_sector, NtfsBootSector};
use crate::records::map_fat_scan_error;
use crate::refs::{
    candidate_views as refs_views, parse_boot_sector as parse_refs_boot_sector, refs_boot_valid, refs_candidates,
    scan_deleted_candidates_with_boot as scan_refs_candidates, RefsBootSector, RefsDeletedCandidate,
};
use crate::ufs::{
    candidate_views as ufs_views, parse_superblock as parse_ufs_superblock,
    scan_deleted_candidates_with_superblock as scan_ufs_candidates, superblock_of, ufs_tombstones,
    UfsDeletedCandidate, UfsSuperblock,
};

verus! {

/// How many deleted candidates a scan gathers when asked for none.
pub const DEFAULT_MAX_DELETED_CANDIDATES: usize = 512;
/// How many directory clusters a FAT scan reads at most.
pub const FAT_SCAN_MAX_DIRECTORY_CLUSTERS: usize = 256;

/// How many candidates a scan asked for `max_entries` gathers.
pub open spec fn candidate_budget_of(max_entries: u32) -> nat {
    if max_entries == 0 {
        DEFAULT_MAX_DELETED_CANDIDATES as nat
    } else {
        max_entries as nat
    }
}

/// How many candidates a scan asked for `max_entries` gathers (see
/// `candidate_budget_of`).
pub fn candidate_budget(max_entries: u32) -> (n: usize)
    ensures
        n == candidate_budget_of(max_entries),
{
    if max_entries == 0 {
        DEFAULT_MAX_DELETED_CANDIDATES
    } else {
        max_entries as usize
    }
}

/// What a caller with room for `capacity` records is told of `found`
/// candidates: their number (held at `u32::MAX`), and how many to hand over.
pub fn candidate_counts(found: usize, capacity: u32) -> (r: (u32, usize))
    ensures
        r.0 == (if found > u32::MAX { u32::MAX as int } else { found as int }),
        r.1 == (if found < capacity { found as int } else { capacity as int }),
{
    let total = if found > u32::MAX as usize {
        u32::MAX
    } else {
        found as u32
    };
    let write_count = if found < capacity as usize {
        found
    } else {
        capacity as usize
    };
    (total, write_count)
}

/// The NTFS boot sector of a volume's first sector; 30 when it is none.
pub fn probe_ntfs_boot(sector: &[u8]) -> (r: Result<NtfsBootSector, i32>)
    ensures
        r == (if ntfs_boot_valid(sector@) {
            Ok::<NtfsBootSector, i32>(ntfs_boot_of(sector@))
        } else {
            Err(30)
        }),
{
    match parse_ntfs_boot_sector(sector) {
        Ok(b) => Ok(b),
        Err(_) => Err(30),
    }
}

/// The ReFS boot sector of a volume's first sector; 80 when it is none.
pub fn probe_refs_boot(sector: &[u8]) -> (r: Result<RefsBootSector, i32>)
    ensures
        r is Ok <==> refs_boot_valid(sector@),
        r matches Err(c) ==> c == 80,
        r matches Ok(bs) ==> {
            &&& bs.oem_id@ == sector@.subrange(3, 11)
            &&& bs.bytes_per_sector == crate::bytes::le16(sector@, 0x0B)
            &&& bs.sectors_per_cluster == sector@[0x0D]
            &&& bs.total_sectors == crate::bytes::le64(sector@, 0x28)
            &&& bs.volume_serial == crate::bytes::le64(sector@, 0x48)
        },
{
    match parse_refs_boot_sector(sector) {
        Ok(b) => Ok(b),
        Err(_) => Err(80),
    }
}

/// The ext2/3/4 superblock of a volume's first 4 KiB; 90 when it is none.
pub fn probe_ext_superblock(header: &[u8]) -> (r: Result<ExtSuperblock, i32>)
    ensures
        r == match ext_superblock_of(header@) {
            Ok(sb) => Ok::<ExtSuperblock, i32>(sb),
            Err(_) => Err(90),
        },
{
    match parse_ext_superblock(header) {
        Ok(sb) => Ok(sb),
        Err(_) => Err(90),
    }
}

/// The APFS container superblock of a volume's first 4 KiB; 100 when it is
/// none.
pub fn probe_apfs_container(header: &[u8]) -> (r: Result<ApfsContainerSuperblock, i32>)
    ensures
        r == match container_of(header@) {
            Ok(c) => Ok::<ApfsContainerSuperblock, i32>(c),
            Err(_) => Err(100),
        },
{
    match parse_container_superblock(header) {
        Ok(c) => Ok(c),
        Err(_) => Err(100),
    }
}

/// The HFS+ volume header of a volume's first 2 KiB; 110 when it is none.
pub fn probe_hfs_volume_header(header: &[u8]) -> (r: Result<HfsVolumeHeader, i32>)
    ensures
        r == match volume_header_of(header@) {
            Ok(h) => Ok::<HfsVolumeHeader, i32>(h),
            Err(_) => Err(110),
        },
{
    match parse_volume_header(header) {
        Ok(h) => Ok(h),
        Err(_) => Err(110),
    }
}

/// The UFS superblock of a volume's first 16 KiB; 130 when it is none.
pub fn probe_ufs_superblock(header: &[u8]) -> (r: Result<UfsSuperblock, i32>)
    ensures
        r == match superblock_of(header@) {
            Ok(sb) => Ok::<UfsSuperblock, i32>(sb),
            Err(_) => Err(130),
        },
{
    match parse_ufs_superblock(header) {
        Ok(sb) => Ok(sb),
        Err(_) => Err(130),
    }
}

/// The FAT32/exFAT boot sector of a volume's first sector; 70 when it is
/// none.
pub fn probe_fat_boot(sector: &[u8]) -> (r: Result<FatBootSector, i32>)
    ensures
        r == match fat_boot_of(sector@) {
            Ok(b) => Ok::<FatBootSector, i32>(b),
            Err(_) => Err(70),
        },
{
    match parse_fat_boot_sector(sector) {
        Ok(b) => Ok(b),
        Err(_) => Err(70),
    }
}

/// The deleted ReFS candidates of a scanned prefix: 31 when it is shorter
/// than a sector, 80 when its first sector is no ReFS boot sector.
pub fn refs_prefix_candidates(image: &[u8], max_entries: u32) -> (r: Result<Vec<RefsDeletedCandidate>, i32>)
    ensures
        image@.len() < 512 ==> r == Err::<Vec<RefsDeletedCandidate>, i32>(31),
        image@.len() >= 512 && !refs_boot_valid(image@.take(512)) ==> r == Err::<Vec<RefsDeletedCandidate>, i32>(80),
        image@.len() >= 512 && refs_boot_valid(image@.take(512)) ==> (r matches Ok(v) && refs_views(v@)
            == refs_candidates(image@, candidate_budget_of(max_entries) as int)),
{
    if image.len() < 512 {
        return Err(31);
    }
    let (sector, _) = image.split_at(512);
    assert(sector@ =~= image@.take(512));
    let boot = match parse_refs_boot_sector(sector) {
        Ok(b) => b,
        Err(_) => return Err(80),
    };
    Ok(scan_refs_candidates(image, &boot, candidate_budget(max_entries)))
}

/// The deleted ext2/3/4 candidates of a scanned prefix: 31 when it is
/// shorter than 2 KiB, 90 without a superblock.
pub fn ext_prefix_candidates(image: &[u8], max_entries: u32) -> (r: Result<Vec<ExtDeletedCandidate>, i32>)
    ensures
        image@.len() < 2048 ==> r == Err::<Vec<ExtDeletedCandidate>, i32>(31),
        image@.len() >= 2048 ==> match ext_superblock_of(image@) {
            Err(_) => r == Err::<Vec<ExtDeletedCandidate>, i32>(90),
            Ok(sb) => r matches Ok(v) && ext_views(v@) == ext_scan(image@, sb, candidate_budget_of(max_entries)),
        },
{
    if image.len() < 2048 {
        return Err(31);
    }
    let superblock = match parse_ext_superblock(image) {
        Ok(sb) => sb,
        Err(_) => return Err(90),
    };
    Ok(scan_ext_candidates(image, &superblock, candidate_budget(max_entries)))
}

/// The deleted APFS candidates of a scanned prefix: 31 when it is shorter
/// than 4 KiB, 100 without a container superblock.
pub fn apfs_prefix_candidates(image: &[u8], max_entries: u32) -> (r: Result<Vec<ApfsDeletedCandidate>, i32>)
    ensures
        image@.len() < 4096 ==> r == Err::<Vec<ApfsDeletedCandidate>, i32>(31),
        image@.len() >= 4096 ==> match container_of(image@) {
            Err(_) => r == Err::<Vec<ApfsDeletedCandidate>, i32>(100),
            Ok(_) => r matches Ok(v) && apfs_views(v@) == apfs_tombstones(image@, candidate_budget_of(max_entries) as int),
        },
{
    if image.len() < 4096 {
        return Err(31);
    }
    let container = match parse_container_superblock(image) {
        Ok(c) => c,
        Err(_) => return Err(100),
    };
    Ok(scan_deleted_candidates_with_container(image, &container, candidate_budget(max_entries)))
}

/// The deleted HFS+ candidates of a scanned prefix: 31 when it is shorter
/// than 2 KiB, 110 without a volume header.
pub fn hfs_prefix_candidates(image: &[u8], max_entries: u32) -> (r: Result<Vec<HfsDeletedCandidate>, i32>)
    ensures
        image@.len() < 2048 ==> r == Err::<Vec<HfsDeletedCandidate>, i32>(31),
        image@.len() >= 2048 ==> match volume_header_of(image@) {
            Err(_) => r == Err::<Vec<HfsDeletedCandidate>, i32>(110),
            Ok(_) => r matches Ok(v) && hfs_views(v@) == hfs_tombstones(image@, candidate_budget_of(max_entries) as int),
        },
{
    if image.len() < 2048 {
        return Err(31);
    }
    let header = match parse_volume_header(image) {
        Ok(h) => h,
        Err(_) => return Err(110),
    };
    Ok(scan_deleted_candidates_with_header(image, &header, candidate_budget(max_entries)))
}

/// The deleted UFS candidates of a scanned prefix: 31 when it is shorter
/// than 16 KiB, 130 without a superblock.
pub fn ufs_prefix_candidates(image: &[u8], max_entries: u32) -> (r: Result<Vec<UfsDeletedCandidate>, i32>)
    ensures
        image@.len() < 16384 ==> r == Err::<Vec<UfsDeletedCandidate>, i32>(31),
        image@.len() >= 16384 ==> match superblock_of(image@) {
            Err(_) => r == Err::<Vec<UfsDeletedCandidate>, i32>(130),
            Ok(_) => r matches Ok(v) && ufs_views(v@) == ufs_tombstones(image@, candidate_budget_of(max_entries) as int),
        },
{
    if image.len() < 16384 {
        return Err(31);
    }
    let superblock = match parse_ufs_superblock(image) {
        Ok(sb) => sb,
        Err(_) => return Err(130),
    };
    Ok(scan_ufs_candidates(image, &superblock, candidate_budget(max_entries)))
}

/// The status of a FAT scan error.
pub open spec fn fat_scan_status(e: FatScanError) -> i32 {
    match e {
        FatScanError::Boot(_) => 70i32,
        FatScanError::InvalidCluster(_) => 71i32,
        FatScanError::ArithmeticOverflow(_) => 72i32,
        FatScanError::OutOfBounds { .. } => 31i32,
        FatScanError::ClusterLoop(_) => 73i32,
        FatScanError::DirectoryEntryTruncated => 74i32,
    }
}

/// The deleted FAT32/exFAT entries of a scanned prefix, walking at most 256
/// directory clusters: 31 when it is shorter than a sector, 70 when its
/// first sector is no FAT boot sector, else the walk's entries or the
/// status of its error.
pub fn fat_prefix_candidates(image: &[u8], max_entries: u32) -> (r: Result<Vec<FatDeletedEntry>, i32>)
    ensures
        image@.len() < 512 ==> r == Err::<Vec<FatDeletedEntry>, i32>(31),
        image@.len() >= 512 ==> match fat_boot_of(image@.take(512)) {
            Err(_) => r == Err::<Vec<FatDeletedEntry>, i32>(70),
            Ok(boot) => match r {
                Ok(v) => tree_result(
                    image@,
                    boot,
                    candidate_budget_of(max_entries),
                    FAT_SCAN_MAX_DIRECTORY_CLUSTERS as nat,
                    Ok(fat_views(v@)),
                ),
                Err(c) => exists|e: FatScanError|
                    tree_result(
                        image@,
                        boot,
                        candidate_budget_of(max_entries),
                        FAT_SCAN_MAX_DIRECTORY_CLUSTERS as nat,
                        Err(e),
                    ) && c == fat_scan_status(e),
            },
        },
{
    if image.len() < 512 {
        return Err(31);
    }
    let (sector, _) = image.split_at(512);
    assert(sector@ =~= image@.take(512));
    let boot = match parse_fat_boot_sector(sector) {
        Ok(b) => b,
        Err(_) => return Err(70),
    };
    match scan_deleted_entries_with_boot(image, &boot, candidate_budget(max_entries), FAT_SCAN_MAX_DIRECTORY_CLUSTERS) {
        Ok(v) => Ok(v),
        Err(e) => {
            let c = map_fat_scan_error(&e);
            assert(c == fat_scan_status(e));
            Err(c)
        },
    }
}

} // verus!
